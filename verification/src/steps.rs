//! The executable passes of Lloyd's iteration: nearest-centroid
//! assignment, centroid recalculation, and the convergence comparison.

use vstd::prelude::*;
use crate::model;
use crate::types::Cluster;
use crate::types::DataPoint;

verus! {

/// Index of the cluster whose centroid is nearest to `p`; on a tie the
/// earliest cluster keeps the point.
pub fn nearest_cluster<P: DataPoint>(p: &P, clusters: &Vec<Cluster<P>>) -> (i: usize)
    requires
        clusters@.len() > 0,
    ensures
        i < clusters@.len(),
        i as int == model::nearest(model::views_of(clusters@), *p),
        forall|j: int| 0 <= j < clusters@.len() ==> p.dist_sq_spec(clusters@[i as int]@.centroid)
            <= p.dist_sq_spec((#[trigger] clusters@[j])@.centroid),
        forall|j: int| 0 <= j < i as int ==> p.dist_sq_spec((#[trigger] clusters@[j])@.centroid)
            > p.dist_sq_spec(clusters@[i as int]@.centroid),
{
    let ghost cvs = model::views_of(clusters@);
    let mut best: usize = 0;
    let mut c: usize = 1;
    while c < clusters.len()
        invariant
            cvs == model::views_of(clusters@),
            clusters@.len() > 0,
            1 <= c <= clusters@.len(),
            best < c,
            best as int == model::nearest_upto(cvs, *p, c as int),
        decreases clusters@.len() - c,
    {
        let dc = p.dist_sq(&clusters[c].centroid);
        let db = p.dist_sq(&clusters[best].centroid);
        if dc < db {
            best = c;
        }
        c = c + 1;
    }
    proof {
        model::lemma_nearest_upto_min(cvs, *p, cvs.len() as int);
        assert(model::nearest_centroid_at(cvs, *p, cvs.len() as int)
            == cvs[best as int].centroid);
        assert forall|j: int| 0 <= j < clusters@.len() implies p.dist_sq_spec(
            clusters@[best as int]@.centroid,
        ) <= p.dist_sq_spec((#[trigger] clusters@[j])@.centroid) by {
            assert(cvs[j] == clusters@[j]@);
        }
        assert forall|j: int| 0 <= j < best as int implies p.dist_sq_spec(
            (#[trigger] clusters@[j])@.centroid,
        ) > p.dist_sq_spec(clusters@[best as int]@.centroid) by {
            assert(cvs[j] == clusters@[j]@);
        }
    }
    best
}

/// One assignment pass: appends every point, in input order, to the
/// member list of the cluster with the nearest centroid.
pub fn assign_pass<P: DataPoint>(clusters: &mut Vec<Cluster<P>>, points: &Vec<P>)
    requires
        old(clusters)@.len() > 0,
    ensures
        final(clusters)@.len() == old(clusters)@.len(),
        model::views_of(final(clusters)@) == model::assign_all(
            model::views_of(old(clusters)@),
            points@,
        ),
{
    let ghost cvs0 = model::views_of(old(clusters)@);
    let ghost pts = points@;
    proof {
        assert(pts.skip(0) =~= pts);
    }
    let mut i: usize = 0;
    while i < points.len()
        invariant
            pts == points@,
            clusters@.len() == cvs0.len(),
            clusters@.len() > 0,
            i <= pts.len(),
            model::assign_all(cvs0, pts) == model::assign_all(
                model::views_of(clusters@),
                pts.skip(i as int),
            ),
        decreases pts.len() - i,
    {
        let ghost before = model::views_of(clusters@);
        let idx = nearest_cluster(&points[i], clusters);
        let mut c = clusters.remove(idx);
        c.points.push(points[i].copy_point());
        clusters.insert(idx, c);
        proof {
            assert(model::views_of(clusters@) =~= before.update(
                idx as int,
                model::add_member(before[idx as int], pts[i as int]),
            ));
            model::lemma_assign_all_step(before, pts, i as int);
        }
        i = i + 1;
    }
    proof {
        assert(pts.skip(pts.len() as int) =~= Seq::<P>::empty());
    }
}

/// One recalculation pass: every cluster's centroid moves to the mean of
/// its members (a memberless cluster keeps its centroid) and membership
/// is cleared.
pub fn recalc_pass<P: DataPoint>(clusters: &mut Vec<Cluster<P>>)
    ensures
        final(clusters)@.len() == old(clusters)@.len(),
        model::views_of(final(clusters)@) == model::recalc_all(model::views_of(old(clusters)@)),
{
    let ghost cvs0 = model::views_of(old(clusters)@);
    let mut i: usize = 0;
    while i < clusters.len()
        invariant
            clusters@.len() == cvs0.len(),
            i <= cvs0.len(),
            forall|j: int| 0 <= j < i as int ==> (#[trigger] clusters@[j])@ == model::recalc_one(
                cvs0[j],
            ),
            forall|j: int| i as int <= j < cvs0.len() ==> (#[trigger] clusters@[j])@ == cvs0[j],
        decreases cvs0.len() - i,
    {
        let mut c = clusters.remove(i);
        c.recalculate_centroid();
        c.points = Vec::new();
        clusters.insert(i, c);
        i = i + 1;
    }
    proof {
        assert(model::views_of(clusters@) =~= model::recalc_all(cvs0));
    }
}

/// Decides whether two member lists hold the same points in the same
/// order.
fn points_equal<P: DataPoint>(a: &Vec<P>, b: &Vec<P>) -> (r: bool)
    ensures
        r == (a@ == b@),
{
    if a.len() != b.len() {
        return false;
    }
    let mut i: usize = 0;
    while i < a.len()
        invariant
            a@.len() == b@.len(),
            i <= a@.len(),
            forall|j: int| 0 <= j < i as int ==> #[trigger] a@[j] == b@[j],
        decreases a@.len() - i,
    {
        if !a[i].eq_point(&b[i]) {
            proof {
                assert(a@ == b@ ==> a@[i as int] == b@[i as int]);
            }
            return false;
        }
        i = i + 1;
    }
    proof {
        assert(a@ =~= b@);
    }
    true
}

/// Decides whether two clusterings are identical: same centroids and the
/// same member lists in the same order.
pub fn clusters_equal<P: DataPoint>(a: &Vec<Cluster<P>>, b: &Vec<Cluster<P>>) -> (r: bool)
    ensures
        r == (model::views_of(a@) == model::views_of(b@)),
{
    if a.len() != b.len() {
        proof {
            assert(model::views_of(a@).len() == a@.len());
            assert(model::views_of(b@).len() == b@.len());
        }
        return false;
    }
    let mut i: usize = 0;
    while i < a.len()
        invariant
            a@.len() == b@.len(),
            i <= a@.len(),
            forall|j: int| 0 <= j < i as int ==> (#[trigger] a@[j])@ == b@[j]@,
        decreases a@.len() - i,
    {
        if !a[i].centroid.eq_point(&b[i].centroid) {
            proof {
                assert(model::views_of(a@)[i as int] == a@[i as int]@);
                assert(model::views_of(b@)[i as int] == b@[i as int]@);
            }
            return false;
        }
        if !points_equal(&a[i].points, &b[i].points) {
            proof {
                assert(model::views_of(a@)[i as int] == a@[i as int]@);
                assert(model::views_of(b@)[i as int] == b@[i as int]@);
            }
            return false;
        }
        i = i + 1;
    }
    proof {
        assert(model::views_of(a@) =~= model::views_of(b@));
    }
    true
}

/// Duplicates a list of points.
pub fn clone_points<P: DataPoint>(v: &Vec<P>) -> (r: Vec<P>)
    ensures
        r@ == v@,
{
    let mut r: Vec<P> = Vec::new();
    let mut i: usize = 0;
    while i < v.len()
        invariant
            i <= v@.len(),
            r@.len() == i,
            forall|j: int| 0 <= j < i as int ==> #[trigger] r@[j] == v@[j],
        decreases v@.len() - i,
    {
        r.push(v[i].copy_point());
        i = i + 1;
    }
    proof {
        assert(r@ =~= v@);
    }
    r
}

/// Duplicates a clustering so a later round can be compared against it.
pub fn clone_clusters<P: DataPoint>(cs: &Vec<Cluster<P>>) -> (r: Vec<Cluster<P>>)
    ensures
        model::views_of(r@) == model::views_of(cs@),
{
    let mut r: Vec<Cluster<P>> = Vec::new();
    let mut i: usize = 0;
    while i < cs.len()
        invariant
            i <= cs@.len(),
            r@.len() == i,
            forall|j: int| 0 <= j < i as int ==> (#[trigger] r@[j])@ == cs@[j]@,
        decreases cs@.len() - i,
    {
        let points = clone_points(&cs[i].points);
        r.push(Cluster { centroid: cs[i].centroid.copy_point(), points });
        i = i + 1;
    }
    proof {
        assert(model::views_of(r@) =~= model::views_of(cs@));
    }
    r
}

} // verus!
