//! Laws of the clustering algorithm that relate whole runs, beyond the
//! contracts of the individual passes.

use vstd::prelude::*;
use vstd::multiset::Multiset;
use crate::model;
use crate::types::ClusterView;
use crate::types::DataPoint;

verus! {

/// The multiset of a sequence all of whose elements are `c` holds `c`
/// once per element and nothing else.
proof fn lemma_all_equal_to_multiset<P: DataPoint>(s: Seq<P>, c: P)
    requires
        forall|t: int| 0 <= t < s.len() ==> #[trigger] s[t] == c,
    ensures
        s.to_multiset().count(c) == s.len(),
        forall|x: P| x != c ==> s.to_multiset().count(x) == 0,
    decreases s.len(),
{
    broadcast use vstd::seq_lib::group_to_multiset_ensures;
    broadcast use vstd::multiset::group_multiset_axioms;

    if s.len() == 0 {
        assert(s.to_multiset().len() == 0);
        assert(s.to_multiset() =~= Multiset::<P>::empty());
    } else {
        assert(s.drop_last().push(s.last()) =~= s);
        lemma_all_equal_to_multiset(s.drop_last(), c);
        assert(s.to_multiset() =~= s.drop_last().to_multiset().insert(s.last()));
    }
}

/// A point held by no member list does not appear in the union.
proof fn lemma_union_count_absent<P: DataPoint>(cvs: Seq<ClusterView<P>>, x: P)
    requires
        forall|j: int, t: int| 0 <= j < cvs.len() && 0 <= t < cvs[j].members.len()
            ==> #[trigger] cvs[j].members[t] != x,
    ensures
        model::members_union(cvs).count(x) == 0,
    decreases cvs.len(),
{
    broadcast use vstd::seq_lib::group_to_multiset_ensures;
    broadcast use vstd::multiset::group_multiset_axioms;

    if cvs.len() > 0 {
        assert(forall|j: int, t: int| 0 <= j < cvs.drop_first().len() && 0 <= t
            < cvs.drop_first()[j].members.len()
            ==> #[trigger] cvs.drop_first()[j].members[t] != x) by {
            assert(forall|j: int| 0 <= j < cvs.drop_first().len()
                ==> #[trigger] cvs.drop_first()[j] == cvs[j + 1]);
        }
        lemma_union_count_absent(cvs.drop_first(), x);
        assert(!cvs[0].members.contains(x));
        assert(cvs[0].members.to_multiset().count(x) == 0);
    }
}

/// In a clustering whose clusters hold only copies of their own pairwise
/// distinct centroids, the union counts each centroid exactly as often as
/// its own cluster holds it.
proof fn lemma_union_count_at<P: DataPoint>(cvs: Seq<ClusterView<P>>, j: int)
    requires
        0 <= j < cvs.len(),
        forall|a: int, b: int| 0 <= a < b < cvs.len()
            ==> (#[trigger] cvs[a]).centroid != (#[trigger] cvs[b]).centroid,
        forall|t: int, u: int| 0 <= t < cvs.len() && 0 <= u < cvs[t].members.len()
            ==> #[trigger] cvs[t].members[u] == cvs[t].centroid,
    ensures
        model::members_union(cvs).count(cvs[j].centroid) == cvs[j].members.len(),
    decreases j,
{
    broadcast use vstd::multiset::group_multiset_axioms;

    let x = cvs[j].centroid;
    assert(forall|t: int| 0 <= t < cvs.drop_first().len()
        ==> #[trigger] cvs.drop_first()[t] == cvs[t + 1]);
    if j == 0 {
        lemma_all_equal_to_multiset(cvs[0].members, x);
        lemma_union_count_absent(cvs.drop_first(), x);
    } else {
        lemma_all_equal_to_multiset(cvs[0].members, cvs[0].centroid);
        lemma_union_count_at(cvs.drop_first(), j - 1);
    }
}

/// Whether `p` coincides with the centroid of one of the clusters.
pub open spec fn is_centroid_of<P: DataPoint>(cvs: Seq<ClusterView<P>>, p: P) -> bool {
    exists|j: int| 0 <= j < cvs.len() && p == (#[trigger] cvs[j]).centroid
}

/// When every point to assign coincides with one of several pairwise
/// distinct centroids, assignment sends each point to the cluster whose
/// centroid it equals, so member lists keep holding only copies of their
/// centroid.
proof fn lemma_assign_all_members_match<P: DataPoint>(cvs: Seq<ClusterView<P>>, q: Seq<P>)
    requires
        cvs.len() > 0,
        forall|a: int, b: int| 0 <= a < b < cvs.len()
            ==> (#[trigger] cvs[a]).centroid != (#[trigger] cvs[b]).centroid,
        forall|t: int| 0 <= t < q.len() ==> is_centroid_of(cvs, #[trigger] q[t]),
        forall|t: int, u: int| 0 <= t < cvs.len() && 0 <= u < cvs[t].members.len()
            ==> #[trigger] cvs[t].members[u] == cvs[t].centroid,
    ensures
        model::assign_all(cvs, q).len() == cvs.len(),
        forall|j: int| 0 <= j < cvs.len() ==> (#[trigger] model::assign_all(cvs, q)[j]).centroid
            == cvs[j].centroid,
        forall|t: int, u: int| 0 <= t < cvs.len() && 0 <= u
            < model::assign_all(cvs, q)[t].members.len()
            ==> #[trigger] model::assign_all(cvs, q)[t].members[u]
                == model::assign_all(cvs, q)[t].centroid,
    decreases q.len(),
{
    if q.len() > 0 {
        let p0 = q.first();
        let nn = model::nearest(cvs, p0);
        model::lemma_nearest_upto_range(cvs, p0, cvs.len() as int);
        model::lemma_nearest_upto_min(cvs, p0, cvs.len() as int);
        assert(is_centroid_of(cvs, q[0]));
        let j0 = choose|j: int| 0 <= j < cvs.len() && p0 == (#[trigger] cvs[j]).centroid;
        P::lemma_dist_sq_zero(p0, cvs[j0].centroid);
        assert(p0.dist_sq_spec(cvs[j0].centroid) == 0);
        P::lemma_dist_sq_bounds(p0, cvs[nn].centroid);
        assert(p0.dist_sq_spec(cvs[nn].centroid) == 0);
        P::lemma_dist_sq_zero(p0, cvs[nn].centroid);
        assert(cvs[nn].centroid == p0);
        let upd = model::assign_one(cvs, p0);
        assert(upd.len() == cvs.len());
        assert(forall|j: int| 0 <= j < cvs.len() ==> (#[trigger] upd[j]).centroid
            == cvs[j].centroid);
        assert(forall|t: int, u: int| 0 <= t < upd.len() && 0 <= u
            < upd[t].members.len() ==> #[trigger] upd[t].members[u] == upd[t].centroid);
        assert(forall|t: int| 0 <= t < q.drop_first().len() ==> #[trigger] q.drop_first()[t]
            == q[t + 1]);
        assert forall|t: int| 0 <= t < q.drop_first().len() implies is_centroid_of(
            upd,
            #[trigger] q.drop_first()[t],
        ) by {
            assert(q.drop_first()[t] == q[t + 1]);
            assert(is_centroid_of(cvs, q[t + 1]));
            let j = choose|j: int| 0 <= j < cvs.len() && q[t + 1] == (#[trigger] cvs[j]).centroid;
            assert(q.drop_first()[t] == upd[j].centroid);
        }
        lemma_assign_all_members_match(upd, q.drop_first());
        assert(model::assign_all(cvs, q) == model::assign_all(upd, q.drop_first()));
    }
}

/// As many clusters as points: with pairwise distinct points, seeding
/// promotes every point to a centroid, each cluster ends with exactly one
/// member, and that member is its centroid.
pub proof fn lemma_kmeans_one_point_clusters<P: DataPoint>(seed: u64, pts: Seq<P>)
    requires
        pts.len() >= 1,
        pts.no_duplicates(),
    ensures
        model::kmeans_model(seed, pts.len() as int, pts).len() == pts.len(),
        forall|j: int| 0 <= j < pts.len()
            ==> (#[trigger] model::kmeans_model(seed, pts.len() as int, pts)[j]).members
            == seq![model::kmeans_model(seed, pts.len() as int, pts)[j].centroid],
{
    broadcast use vstd::seq_lib::group_to_multiset_ensures;
    broadcast use vstd::multiset::group_multiset_axioms;

    let n = pts.len() as int;
    model::lemma_seed_state_len(seed, pts, (n - 1) as nat);
    model::lemma_seed_state_multiset(seed, pts, (n - 1) as nat);
    let cents = model::seed_centroids(seed, n, pts);
    let pool = model::seed_state(seed, pts, (n - 1) as nat).1;
    assert(pool.len() == 0);
    assert(pool.to_multiset().len() == 0);
    assert(pool.to_multiset() =~= Multiset::<P>::empty());
    assert(cents.to_multiset() =~= pts.to_multiset());
    pts.lemma_multiset_has_no_duplicates();
    assert(forall|x: P| cents.to_multiset().contains(x) ==> cents.to_multiset().count(x) == 1);
    cents.lemma_multiset_has_no_duplicates_conv();

    let init = model::initial_clusters(seed, n, pts);
    assert(init.len() == n);
    assert(forall|j: int| 0 <= j < n ==> (#[trigger] init[j]).centroid == cents[j]
        && init[j].members == Seq::<P>::empty());
    assert(forall|a: int, b: int| 0 <= a < b < init.len()
        ==> (#[trigger] init[a]).centroid != (#[trigger] init[b]).centroid);
    assert forall|t: int| 0 <= t < pts.len() implies is_centroid_of(
        init,
        #[trigger] pts[t],
    ) by {
        assert(pts.contains(pts[t]));
        assert(pts.to_multiset().count(pts[t]) > 0);
        assert(cents.to_multiset().count(pts[t]) > 0);
        assert(cents.contains(pts[t]));
        let j = choose|j: int| 0 <= j < cents.len() && cents[j] == pts[t];
        assert(pts[t] == init[j].centroid);
    }
    lemma_assign_all_members_match(init, pts);
    let a1 = model::assign_all(init, pts);
    model::lemma_union_empty_members(init);
    model::lemma_assign_all_union(init, pts);
    assert(model::members_union(a1) =~= pts.to_multiset());

    assert forall|j: int| 0 <= j < n implies (#[trigger] a1[j]).members
        == seq![a1[j].centroid] by {
        lemma_union_count_at(a1, j);
        assert(a1[j].centroid == cents[j]);
        assert(cents.contains(cents[j]));
        assert(pts.to_multiset().count(cents[j]) == 1);
        assert(a1[j].members.len() == 1);
        assert(a1[j].members =~= seq![a1[j].centroid]);
    }

    assert forall|j: int| 0 <= j < n implies #[trigger] model::recalc_all(a1)[j] == init[j] by {
        P::lemma_mean_singleton(a1[j].centroid);
        assert(model::recalc_all(a1)[j] == model::recalc_one(a1[j]));
        assert(model::recalc_one(a1[j]).centroid == P::mean_spec(seq![a1[j].centroid]));
    }
    assert(model::recalc_all(a1) =~= init);
    assert(model::lloyd_step(a1, pts) == a1);
    model::lemma_lloyd_fixpoint(a1, pts, model::round_cap(pts.len()));
}

/// Determinism: two runs with the same seed, the same cluster count and
/// the same input sequence produce identical clusterings. `kmeans_seeded`
/// returns exactly `kmeans_model(seed, k, pts)`, so any two results of it
/// for equal arguments are equal.
pub proof fn lemma_kmeans_deterministic<P: DataPoint>(
    r1: Seq<ClusterView<P>>,
    r2: Seq<ClusterView<P>>,
    seed: u64,
    k: int,
    pts: Seq<P>,
)
    requires
        r1 == model::kmeans_model(seed, k, pts),
        r2 == model::kmeans_model(seed, k, pts),
    ensures
        r1 == r2,
{
}

/// An assignment pass over a single cluster appends every point, in input
/// order, to that cluster.
pub proof fn lemma_assign_all_single<P: DataPoint>(c: P, m: Seq<P>, q: Seq<P>)
    ensures
        model::assign_all(seq![(ClusterView { centroid: c, members: m })], q) == seq![
            (ClusterView { centroid: c, members: m + q }),
        ],
    decreases q.len(),
{
    let cvs = seq![(ClusterView { centroid: c, members: m })];
    if q.len() == 0 {
        assert(m + q =~= m);
        assert(cvs =~= seq![(ClusterView { centroid: c, members: m + q })]);
    } else {
        let p0 = q.first();
        assert(model::nearest(cvs, p0) == 0);
        assert(model::assign_one(cvs, p0) =~= seq![
            (ClusterView { centroid: c, members: m.push(p0) }),
        ]);
        lemma_assign_all_single(c, m.push(p0), q.drop_first());
        assert(m.push(p0) + q.drop_first() =~= m + q);
    }
}

/// One cluster asked for: the algorithm returns a single cluster holding
/// every input point in input order, centered on the mean of the whole
/// input.
pub proof fn lemma_kmeans_single_cluster<P: DataPoint>(seed: u64, pts: Seq<P>)
    requires
        pts.len() >= 1,
    ensures
        model::kmeans_model(seed, 1, pts) == seq![
            (ClusterView { centroid: P::mean_spec(pts), members: pts }),
        ],
{
    let i0 = crate::rng::rng_word(seed, 0) as int % (pts.len() as int);
    let c0 = pts[i0];
    let init = model::initial_clusters(seed, 1, pts);
    assert(model::seed_centroids(seed, 1, pts) == seq![c0]);
    assert(init =~= seq![(ClusterView { centroid: c0, members: Seq::<P>::empty() })]);
    lemma_assign_all_single(c0, Seq::<P>::empty(), pts);
    let a1 = model::assign_all(init, pts);
    assert(Seq::<P>::empty() + pts =~= pts);
    assert(a1 =~= seq![(ClusterView { centroid: c0, members: pts })]);
    let stable = seq![(ClusterView { centroid: P::mean_spec(pts), members: pts })];
    assert(model::recalc_all(a1) =~= seq![
        (ClusterView { centroid: P::mean_spec(pts), members: Seq::<P>::empty() }),
    ]);
    lemma_assign_all_single(P::mean_spec(pts), Seq::<P>::empty(), pts);
    assert(model::lloyd_step(a1, pts) =~= stable);
    assert(model::recalc_all(stable) =~= seq![
        (ClusterView { centroid: P::mean_spec(pts), members: Seq::<P>::empty() }),
    ]);
    assert(model::lloyd_step(stable, pts) =~= stable);
    let cap = model::round_cap(pts.len());
    if model::lloyd_step(a1, pts) == a1 {
        assert(model::lloyd(a1, pts, cap) == a1);
        assert(a1 == stable);
    } else {
        assert(model::lloyd(a1, pts, cap) == model::lloyd(stable, pts, (cap - 1) as nat));
        model::lemma_lloyd_fixpoint(stable, pts, (cap - 1) as nat);
    }
}

} // verus!
