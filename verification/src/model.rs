//! Mathematical model of the clustering algorithm.
//!
//! Every executable step of the library is pinned to a spec function in this
//! module, so the whole run of the algorithm is a mathematical function of
//! the seed, the cluster count and the input sequence.

use vstd::prelude::*;
use vstd::multiset::Multiset;
use crate::types::Cluster;
use crate::types::ClusterView;
use crate::types::DataPoint;
use crate::rng::rng_word;

verus! {

/// The mathematical values of a list of clusters.
pub open spec fn views_of<P: DataPoint>(cs: Seq<Cluster<P>>) -> Seq<ClusterView<P>> {
    cs.map_values(|c: Cluster<P>| c@)
}

/// Index, among the first `n` clusters, of the centroid nearest to `p`;
/// on a tie the earliest index wins.
pub open spec fn nearest_upto<P: DataPoint>(cvs: Seq<ClusterView<P>>, p: P, n: int) -> int
    decreases n,
{
    if n <= 1 {
        0
    } else {
        let prev = nearest_upto(cvs, p, n - 1);
        if p.dist_sq_spec(cvs[n - 1].centroid) < p.dist_sq_spec(cvs[prev].centroid) {
            n - 1
        } else {
            prev
        }
    }
}

/// Index of the cluster whose centroid is nearest to `p`.
pub open spec fn nearest<P: DataPoint>(cvs: Seq<ClusterView<P>>, p: P) -> int {
    nearest_upto(cvs, p, cvs.len() as int)
}

pub proof fn lemma_nearest_upto_range<P: DataPoint>(cvs: Seq<ClusterView<P>>, p: P, n: int)
    requires
        n >= 1,
    ensures
        0 <= nearest_upto(cvs, p, n) < n,
    decreases n,
{
    if n > 1 {
        lemma_nearest_upto_range(cvs, p, n - 1);
    }
}

/// The nearest index holds the minimal distance, and every earlier index
/// is strictly farther: ties keep the earliest cluster.
pub proof fn lemma_nearest_upto_min<P: DataPoint>(cvs: Seq<ClusterView<P>>, p: P, n: int)
    requires
        n >= 1,
    ensures
        forall|j: int| 0 <= j < n ==> p.dist_sq_spec(nearest_centroid_at(cvs, p, n))
            <= p.dist_sq_spec(#[trigger] cvs[j].centroid),
        forall|j: int| 0 <= j < nearest_upto(cvs, p, n) ==> p.dist_sq_spec(
            #[trigger] cvs[j].centroid) > p.dist_sq_spec(nearest_centroid_at(cvs, p, n)),
    decreases n,
{
    lemma_nearest_upto_range(cvs, p, n);
    if n > 1 {
        lemma_nearest_upto_min(cvs, p, n - 1);
    }
}

/// The centroid that `nearest_upto` picks.
pub open spec fn nearest_centroid_at<P: DataPoint>(cvs: Seq<ClusterView<P>>, p: P, n: int) -> P {
    cvs[nearest_upto(cvs, p, n)].centroid
}

/// A cluster with one more member appended.
pub open spec fn add_member<P: DataPoint>(cv: ClusterView<P>, p: P) -> ClusterView<P> {
    ClusterView { centroid: cv.centroid, members: cv.members.push(p) }
}

/// One assignment: `p` joins the cluster with the nearest centroid.
pub open spec fn assign_one<P: DataPoint>(cvs: Seq<ClusterView<P>>, p: P) -> Seq<ClusterView<P>> {
    let i = nearest(cvs, p);
    cvs.update(i, add_member(cvs[i], p))
}

/// One assignment pass: every point joins its nearest cluster, in input
/// order.
pub open spec fn assign_all<P: DataPoint>(cvs: Seq<ClusterView<P>>, pts: Seq<P>) -> Seq<ClusterView<P>>
    decreases pts.len(),
{
    if pts.len() == 0 {
        cvs
    } else {
        assign_all(assign_one(cvs, pts.first()), pts.drop_first())
    }
}

pub proof fn lemma_assign_all_len<P: DataPoint>(cvs: Seq<ClusterView<P>>, pts: Seq<P>)
    requires
        cvs.len() > 0,
    ensures
        assign_all(cvs, pts).len() == cvs.len(),
    decreases pts.len(),
{
    if pts.len() > 0 {
        lemma_nearest_upto_range(cvs, pts.first(), cvs.len() as int);
        lemma_assign_all_len(assign_one(cvs, pts.first()), pts.drop_first());
    }
}

/// Unfolds one step of an assignment pass at index `i` of the input.
pub proof fn lemma_assign_all_step<P: DataPoint>(cvs: Seq<ClusterView<P>>, pts: Seq<P>, i: int)
    requires
        0 <= i < pts.len(),
    ensures
        assign_all(cvs, pts.skip(i)) == assign_all(assign_one(cvs, pts[i]), pts.skip(i + 1)),
{
    assert(pts.skip(i).first() == pts[i]);
    assert(pts.skip(i).drop_first() =~= pts.skip(i + 1));
}

/// Recalculation of one cluster: the centroid moves to the mean of the
/// members (a memberless cluster keeps its centroid) and the member list
/// is cleared.
pub open spec fn recalc_one<P: DataPoint>(cv: ClusterView<P>) -> ClusterView<P> {
    ClusterView {
        centroid: if cv.members.len() > 0 {
            P::mean_spec(cv.members)
        } else {
            cv.centroid
        },
        members: Seq::<P>::empty(),
    }
}

/// Recalculation pass over all clusters.
pub open spec fn recalc_all<P: DataPoint>(cvs: Seq<ClusterView<P>>) -> Seq<ClusterView<P>> {
    cvs.map_values(|cv: ClusterView<P>| recalc_one(cv))
}

/// One round of Lloyd's iteration: recalculate centroids, clear
/// membership, then assign every point to its nearest cluster.
pub open spec fn lloyd_step<P: DataPoint>(cvs: Seq<ClusterView<P>>, pts: Seq<P>) -> Seq<ClusterView<P>> {
    assign_all(recalc_all(cvs), pts)
}

/// The convergence loop: iterate `lloyd_step` until the clustering is
/// unchanged between two consecutive rounds, or until the fuel runs out.
pub open spec fn lloyd<P: DataPoint>(cvs: Seq<ClusterView<P>>, pts: Seq<P>, fuel: nat) -> Seq<ClusterView<P>>
    decreases fuel,
{
    if fuel == 0 {
        cvs
    } else {
        let next = lloyd_step(cvs, pts);
        if next == cvs {
            cvs
        } else {
            lloyd(next, pts, (fuel - 1) as nat)
        }
    }
}

/// A converged clustering is terminal: iterating from it changes nothing.
pub proof fn lemma_lloyd_fixpoint<P: DataPoint>(cvs: Seq<ClusterView<P>>, pts: Seq<P>, fuel: nat)
    requires
        lloyd_step(cvs, pts) == cvs,
    ensures
        lloyd(cvs, pts, fuel) == cvs,
{
}

/// The centroid values of a list of clusters.
pub open spec fn centroids_of<P: DataPoint>(cs: Seq<Cluster<P>>) -> Seq<P> {
    cs.map_values(|c: Cluster<P>| c.centroid)
}

/// Squared distance from `p` to the nearest of the chosen centroids.
pub open spec fn min_dist_sq<P: DataPoint>(cents: Seq<P>, p: P) -> int
    decreases cents.len(),
{
    if cents.len() == 0 {
        0
    } else if cents.len() == 1 {
        cents[0].dist_sq_spec(p)
    } else {
        let m = min_dist_sq(cents.drop_last(), p);
        let d = cents.last().dist_sq_spec(p);
        if d < m {
            d
        } else {
            m
        }
    }
}

/// k-means++ weights: each candidate weighs its squared distance to the
/// nearest chosen centroid, so candidates far from every centroid are
/// favored.
pub open spec fn seed_weights<P: DataPoint>(cents: Seq<P>, pool: Seq<P>) -> Seq<int> {
    pool.map_values(|p: P| min_dist_sq(cents, p))
}

/// One seeding round: draw a candidate with probability proportional to
/// its weight (a weightless pool falls back to its first candidate), make
/// it a centroid, and drop it from the pool.
pub open spec fn seed_step<P: DataPoint>(seed: u64, j: int, cents: Seq<P>, pool: Seq<P>) -> (Seq<P>, Seq<P>) {
    let ws = seed_weights(cents, pool);
    let total = sum_int(ws);
    let pick = if total > 0 {
        select_model(ws, rng_word(seed, j) as int % total)
    } else {
        0
    };
    (cents.push(pool[pick]), pool.remove(pick))
}

/// Chosen centroids and remaining candidate pool after `rounds` weighted
/// rounds; round zero picks the first centroid uniformly at random.
pub open spec fn seed_state<P: DataPoint>(seed: u64, pts: Seq<P>, rounds: nat) -> (Seq<P>, Seq<P>)
    decreases rounds,
{
    if rounds == 0 {
        let i0 = rng_word(seed, 0) as int % (pts.len() as int);
        (seq![pts[i0]], pts.remove(i0))
    } else {
        let prev = seed_state(seed, pts, (rounds - 1) as nat);
        seed_step(seed, rounds as int, prev.0, prev.1)
    }
}

/// The `k` centroids that seeding chooses.
pub open spec fn seed_centroids<P: DataPoint>(seed: u64, k: int, pts: Seq<P>) -> Seq<P> {
    seed_state(seed, pts, (k - 1) as nat).0
}

/// The seeded clusters: each chosen centroid with an empty member list.
pub open spec fn initial_clusters<P: DataPoint>(seed: u64, k: int, pts: Seq<P>) -> Seq<ClusterView<P>> {
    seed_centroids(seed, k, pts).map_values(
        |c: P| ClusterView { centroid: c, members: Seq::<P>::empty() },
    )
}

pub proof fn lemma_select_model_range(ws: Seq<int>, d: int)
    requires
        ws.len() > 0,
    ensures
        0 <= select_model(ws, d) < ws.len(),
    decreases ws.len(),
{
    if ws.len() > 1 && !(d < ws.first()) {
        lemma_select_model_range(ws.drop_first(), d - ws.first());
    }
}

pub proof fn lemma_seed_state_len<P: DataPoint>(seed: u64, pts: Seq<P>, rounds: nat)
    requires
        rounds + 1 <= pts.len(),
    ensures
        seed_state(seed, pts, rounds).0.len() == rounds + 1,
        seed_state(seed, pts, rounds).1.len() == pts.len() - rounds - 1,
    decreases rounds,
{
    if rounds > 0 {
        lemma_seed_state_len(seed, pts, (rounds - 1) as nat);
        let prev = seed_state(seed, pts, (rounds - 1) as nat);
        let ws = seed_weights(prev.0, prev.1);
        if sum_int(ws) > 0 {
            lemma_select_model_range(ws, rng_word(seed, rounds as int) as int % sum_int(ws));
        }
    }
}

/// Seeding conserves the points: the chosen centroids and the remaining
/// pool together are exactly the input.
pub proof fn lemma_seed_state_multiset<P: DataPoint>(seed: u64, pts: Seq<P>, rounds: nat)
    requires
        rounds + 1 <= pts.len(),
    ensures
        seed_state(seed, pts, rounds).0.to_multiset().add(
            seed_state(seed, pts, rounds).1.to_multiset(),
        ) == pts.to_multiset(),
    decreases rounds,
{
    broadcast use vstd::seq_lib::group_to_multiset_ensures;
    broadcast use vstd::multiset::group_multiset_axioms;

    if rounds == 0 {
        let n = pts.len() as int;
        let i0 = rng_word(seed, 0) as int % n;
        let cents = seq![pts[i0]];
        let pool = pts.remove(i0);
        assert(cents =~= Seq::<P>::empty().push(pts[i0]));
        assert(Seq::<P>::empty().to_multiset().len() == 0);
        assert(Seq::<P>::empty().to_multiset() =~= Multiset::<P>::empty());
        assert(cents.to_multiset() =~= Multiset::<P>::empty().insert(pts[i0]));
        assert(pool.to_multiset() =~= pts.to_multiset().remove(pts[i0]));
        assert(pts.contains(pts[i0]));
        assert(cents.to_multiset().add(pool.to_multiset()) =~= pts.to_multiset());
    } else {
        lemma_seed_state_multiset(seed, pts, (rounds - 1) as nat);
        lemma_seed_state_len(seed, pts, (rounds - 1) as nat);
        let prev = seed_state(seed, pts, (rounds - 1) as nat);
        let ws = seed_weights(prev.0, prev.1);
        let total = sum_int(ws);
        let pick = if total > 0 {
            select_model(ws, rng_word(seed, rounds as int) as int % total)
        } else {
            0
        };
        if total > 0 {
            lemma_select_model_range(ws, rng_word(seed, rounds as int) as int % total);
        }
        let c = prev.1[pick];
        assert(prev.0.push(c).to_multiset() =~= prev.0.to_multiset().insert(c));
        assert(prev.1.remove(pick).to_multiset() =~= prev.1.to_multiset().remove(c));
        assert(prev.1.contains(c));
        assert(prev.0.push(c).to_multiset().add(prev.1.remove(pick).to_multiset())
            =~= pts.to_multiset());
    }
}

/// Total number of Lloyd rounds the library will run before it stops
/// waiting for convergence.
pub open spec fn round_cap(n: nat) -> nat {
    10 * n + 10
}

/// The full algorithm: seed, make the first assignment pass, then iterate
/// until the clustering repeats.
pub open spec fn kmeans_model<P: DataPoint>(seed: u64, k: int, pts: Seq<P>) -> Seq<ClusterView<P>> {
    lloyd(assign_all(initial_clusters(seed, k, pts), pts), pts, round_cap(pts.len()))
}

/// The multiset of all points assigned to any cluster.
pub open spec fn members_union<P: DataPoint>(cvs: Seq<ClusterView<P>>) -> Multiset<P>
    decreases cvs.len(),
{
    if cvs.len() == 0 {
        Multiset::<P>::empty()
    } else {
        cvs.first().members.to_multiset().add(members_union(cvs.drop_first()))
    }
}

/// Appending a member to one cluster adds exactly that point to the union.
pub proof fn lemma_union_update_push<P: DataPoint>(cvs: Seq<ClusterView<P>>, i: int, p: P)
    requires
        0 <= i < cvs.len(),
    ensures
        members_union(cvs.update(i, add_member(cvs[i], p))) == members_union(cvs).insert(p),
    decreases i,
{
    broadcast use vstd::seq_lib::group_to_multiset_ensures;
    let upd = cvs.update(i, add_member(cvs[i], p));
    if i == 0 {
        assert(upd.drop_first() =~= cvs.drop_first());
        assert(upd.first() == add_member(cvs[0], p));
        assert(add_member(cvs[0], p).members.to_multiset()
            =~= cvs[0].members.to_multiset().insert(p));
        assert(cvs[0].members.to_multiset().insert(p).add(members_union(cvs.drop_first()))
            =~= cvs[0].members.to_multiset().add(members_union(cvs.drop_first())).insert(p));
    } else {
        assert(upd.first() == cvs.first());
        assert(upd.drop_first() =~= cvs.drop_first().update(i - 1, add_member(cvs[i], p)));
        assert(cvs.drop_first()[i - 1] == cvs[i]);
        lemma_union_update_push(cvs.drop_first(), i - 1, p);
        assert(cvs.first().members.to_multiset().add(
            members_union(cvs.drop_first()).insert(p))
            =~= cvs.first().members.to_multiset().add(members_union(cvs.drop_first())).insert(p));
    }
}

pub proof fn lemma_assign_one_union<P: DataPoint>(cvs: Seq<ClusterView<P>>, p: P)
    requires
        cvs.len() > 0,
    ensures
        members_union(assign_one(cvs, p)) == members_union(cvs).insert(p),
        assign_one(cvs, p).len() == cvs.len(),
{
    lemma_nearest_upto_range(cvs, p, cvs.len() as int);
    lemma_union_update_push(cvs, nearest(cvs, p), p);
}

/// An assignment pass adds exactly the multiset of assigned points to the
/// union of cluster members.
pub proof fn lemma_assign_all_union<P: DataPoint>(cvs: Seq<ClusterView<P>>, pts: Seq<P>)
    requires
        cvs.len() > 0,
    ensures
        members_union(assign_all(cvs, pts)) == members_union(cvs).add(pts.to_multiset()),
    decreases pts.len(),
{
    broadcast use vstd::seq_lib::group_to_multiset_ensures;
    if pts.len() == 0 {
        assert(pts.to_multiset() =~= Multiset::<P>::empty());
        assert(members_union(cvs).add(Multiset::<P>::empty()) =~= members_union(cvs));
    } else {
        let p0 = pts.first();
        lemma_assign_one_union(cvs, p0);
        lemma_assign_all_union(assign_one(cvs, p0), pts.drop_first());
        assert(pts.remove(0) =~= pts.drop_first());
        assert(pts.drop_first().to_multiset() =~= pts.to_multiset().remove(p0));
        assert(pts.contains(p0)) by {
            assert(pts[0] == p0);
        }
        assert(pts.to_multiset().count(p0) > 0);
        assert(members_union(cvs).insert(p0).add(pts.to_multiset().remove(p0))
            =~= members_union(cvs).add(pts.to_multiset()));
    }
}

/// Clusters whose member lists are all empty contribute nothing to the
/// union.
pub proof fn lemma_union_empty_members<P: DataPoint>(cvs: Seq<ClusterView<P>>)
    requires
        forall|j: int| 0 <= j < cvs.len() ==> (#[trigger] cvs[j]).members == Seq::<P>::empty(),
    ensures
        members_union(cvs) == Multiset::<P>::empty(),
    decreases cvs.len(),
{
    broadcast use vstd::seq_lib::group_to_multiset_ensures;
    if cvs.len() > 0 {
        assert(cvs.drop_first() =~= cvs.subrange(1, cvs.len() as int));
        lemma_union_empty_members(cvs.drop_first());
        assert(cvs[0].members.to_multiset().len() == 0);
        assert(cvs[0].members.to_multiset() =~= Multiset::<P>::empty());
        assert(Multiset::<P>::empty().add(Multiset::<P>::empty()) =~= Multiset::<P>::empty());
    }
}

/// Recalculation clears every member list and keeps the cluster count.
pub proof fn lemma_recalc_props<P: DataPoint>(cvs: Seq<ClusterView<P>>)
    ensures
        recalc_all(cvs).len() == cvs.len(),
        members_union(recalc_all(cvs)) == Multiset::<P>::empty(),
{
    lemma_union_empty_members(recalc_all(cvs));
}

/// The convergence loop preserves the cluster count and the partition of
/// the input points.
pub proof fn lemma_lloyd_props<P: DataPoint>(cvs: Seq<ClusterView<P>>, pts: Seq<P>, fuel: nat)
    requires
        cvs.len() > 0,
        members_union(cvs) == pts.to_multiset(),
    ensures
        lloyd(cvs, pts, fuel).len() == cvs.len(),
        members_union(lloyd(cvs, pts, fuel)) == pts.to_multiset(),
    decreases fuel,
{
    if fuel > 0 {
        let next = lloyd_step(cvs, pts);
        if next != cvs {
            lemma_recalc_props(cvs);
            lemma_assign_all_len(recalc_all(cvs), pts);
            lemma_assign_all_union(recalc_all(cvs), pts);
            assert(Multiset::<P>::empty().add(pts.to_multiset()) =~= pts.to_multiset());
            lemma_lloyd_props(next, pts, (fuel - 1) as nat);
        }
    }
}

/// The clustering that the algorithm returns has exactly `k` clusters and
/// its members are, as a multiset, exactly the input points.
pub proof fn lemma_kmeans_model_props<P: DataPoint>(seed: u64, k: int, pts: Seq<P>)
    requires
        1 <= k <= pts.len(),
    ensures
        kmeans_model(seed, k, pts).len() == k,
        members_union(kmeans_model(seed, k, pts)) == pts.to_multiset(),
{
    lemma_seed_state_len(seed, pts, (k - 1) as nat);
    let init = initial_clusters(seed, k, pts);
    assert(init.len() == k);
    lemma_union_empty_members(init);
    lemma_assign_all_len(init, pts);
    lemma_assign_all_union(init, pts);
    let first = assign_all(init, pts);
    assert(Multiset::<P>::empty().add(pts.to_multiset()) =~= pts.to_multiset());
    lemma_lloyd_props(first, pts, round_cap(pts.len()));
}

/// Sum of a sequence of mathematical integers.
pub open spec fn sum_int(s: Seq<int>) -> int
    decreases s.len(),
{
    if s.len() == 0 {
        0
    } else {
        s.first() + sum_int(s.drop_first())
    }
}

/// The weights of a draw, as mathematical integers.
pub open spec fn weights_int(ws: Seq<u64>) -> Seq<int> {
    ws.map_values(|w: u64| w as int)
}

/// Index chosen by a weighted draw: the first index whose cumulative
/// weight strictly exceeds the drawn value.
pub open spec fn select_model(ws: Seq<int>, d: int) -> int
    decreases ws.len(),
{
    if ws.len() <= 1 {
        0
    } else if d < ws.first() {
        0
    } else {
        1 + select_model(ws.drop_first(), d - ws.first())
    }
}

pub proof fn lemma_sum_int_take_step(s: Seq<int>, i: int)
    requires
        0 <= i < s.len(),
    ensures
        sum_int(s.take(i + 1)) == sum_int(s.take(i)) + s[i],
    decreases i,
{
    if i == 0 {
        assert(s.take(1).drop_first() =~= Seq::<int>::empty());
        assert(s.take(0) =~= Seq::<int>::empty());
    } else {
        assert(s.take(i + 1).drop_first() =~= s.drop_first().take(i));
        assert(s.take(i).drop_first() =~= s.drop_first().take(i - 1));
        lemma_sum_int_take_step(s.drop_first(), i - 1);
    }
}

pub proof fn lemma_sum_int_take_all(s: Seq<int>)
    ensures
        sum_int(s.take(s.len() as int)) == sum_int(s),
{
    assert(s.take(s.len() as int) =~= s);
}

pub proof fn lemma_sum_int_bounds(s: Seq<int>, lo: int, hi: int)
    requires
        forall|j: int| 0 <= j < s.len() ==> lo <= #[trigger] s[j] <= hi,
    ensures
        lo * s.len() <= sum_int(s) <= hi * s.len(),
    decreases s.len(),
{
    if s.len() > 0 {
        lemma_sum_int_bounds(s.drop_first(), lo, hi);
        assert(lo * s.len() == lo + lo * s.drop_first().len()) by (nonlinear_arith)
            requires s.len() == s.drop_first().len() + 1;
        assert(hi * s.len() == hi + hi * s.drop_first().len()) by (nonlinear_arith)
            requires s.len() == s.drop_first().len() + 1;
    }
}

/// Prefix sums of a non-negative sequence grow with the prefix length.
pub proof fn lemma_sum_int_take_mono(s: Seq<int>, i: int, j: int)
    requires
        forall|t: int| 0 <= t < s.len() ==> #[trigger] s[t] >= 0,
        0 <= i <= j <= s.len(),
    ensures
        sum_int(s.take(i)) <= sum_int(s.take(j)),
    decreases j - i,
{
    if i < j {
        lemma_sum_int_take_step(s, i);
        lemma_sum_int_take_mono(s, i + 1, j);
    }
}

/// The weighted draw is uniquely characterized by the cumulative sums
/// around the chosen index.
pub proof fn lemma_select_model_unique(ws: Seq<int>, d: int, i: int)
    requires
        forall|t: int| 0 <= t < ws.len() ==> #[trigger] ws[t] >= 0,
        0 <= i < ws.len(),
        sum_int(ws.take(i)) <= d,
        d < sum_int(ws.take(i + 1)),
    ensures
        select_model(ws, d) == i,
    decreases i,
{
    if i == 0 {
        assert(ws.take(0) =~= Seq::<int>::empty());
        assert(ws.take(1).drop_first() =~= Seq::<int>::empty());
        assert(sum_int(ws.take(1)) == ws[0]);
    } else {
        // the drawn value clears the first weight, so selection recurses
        assert(ws.take(i).drop_first() =~= ws.drop_first().take(i - 1));
        assert(ws.take(i + 1).drop_first() =~= ws.drop_first().take(i));
        assert(ws.take(i).first() == ws[0]);
        assert(sum_int(ws.take(i)) == ws[0] + sum_int(ws.drop_first().take(i - 1)));
        assert(sum_int(ws.take(i + 1)) == ws[0] + sum_int(ws.drop_first().take(i)));
        assert(forall|t: int| 0 <= t < ws.drop_first().len()
            ==> #[trigger] ws.drop_first()[t] >= 0);
        assert(sum_int(ws.drop_first().take(i - 1)) >= 0) by {
            lemma_sum_int_take_mono(ws.drop_first(), 0, i - 1);
            assert(ws.drop_first().take(0) =~= Seq::<int>::empty());
        }
        assert(d >= ws[0]);
        lemma_select_model_unique(ws.drop_first(), d - ws[0], i - 1);
    }
}

} // verus!
