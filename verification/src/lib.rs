//! k-means clustering with k-means++ seeding over exact integer geometry.
//!
//! Points are compared by squared Euclidean distance, which orders pairs of
//! points exactly as the real distance does, so nearest-centroid decisions
//! are free of rounding.

pub mod laws;
pub mod model;
pub mod prelude;
pub mod rng;
pub mod seeding;
pub mod steps;
pub mod types;
pub mod adapters;

use vstd::prelude::*;
use crate::types::Cluster;
use crate::types::DataPoint;

verus! {

/// The error a clustering request can be rejected with.
#[derive(Clone, Copy, Debug, PartialEq, Eq, Structural)]
pub enum KmeansError {
    /// No points were given, `k` was zero, or `k` exceeded the number of
    /// points.
    InvalidArgument,
}

/// Runs the full clustering with an explicit seed: k-means++ seeding, one
/// assignment pass, then Lloyd's iteration until the clustering repeats.
///
/// The result is a fixed function of the seed, the cluster count and the
/// input sequence, so two calls with equal arguments return equal
/// clusterings. The returned clusters partition the input: their member
/// lists together hold exactly the input points.
pub fn kmeans_seeded<P: DataPoint>(seed: u64, k: usize, datapoints: Vec<P>) -> (r: Vec<
    Cluster<P>,
>)
    requires
        1 <= k as int <= datapoints@.len(),
    ensures
        model::views_of(r@) == model::kmeans_model(seed, k as int, datapoints@),
        r@.len() == k as int,
        model::members_union(model::views_of(r@)) == datapoints@.to_multiset(),
{
    let ghost pts = datapoints@;
    let mut clusters = seeding::seed_clusters(seed, k, &datapoints);
    steps::assign_pass(&mut clusters, &datapoints);
    let cap: u128 = 10 * (datapoints.len() as u128) + 10;
    lloyd_loop(&mut clusters, &datapoints, cap);
    proof {
        assert(cap as nat == model::round_cap(pts.len()));
        model::lemma_kmeans_model_props(seed, k as int, pts);
    }
    clusters
}

/// Runs the clustering with an explicit seed and an explicit bound on the
/// number of Lloyd rounds, for callers that want a firmer limit on run
/// time than the default safeguard.
pub fn kmeans_capped<P: DataPoint>(seed: u64, k: usize, max_rounds: u64, datapoints: Vec<P>) -> (r:
    Vec<Cluster<P>>)
    requires
        1 <= k as int <= datapoints@.len(),
    ensures
        model::views_of(r@) == model::lloyd(
            model::assign_all(model::initial_clusters(seed, k as int, datapoints@), datapoints@),
            datapoints@,
            max_rounds as nat,
        ),
        r@.len() == k as int,
        model::members_union(model::views_of(r@)) == datapoints@.to_multiset(),
{
    let ghost pts = datapoints@;
    let mut clusters = seeding::seed_clusters(seed, k, &datapoints);
    steps::assign_pass(&mut clusters, &datapoints);
    lloyd_loop(&mut clusters, &datapoints, max_rounds as u128);
    proof {
        let init = model::initial_clusters(seed, k as int, pts);
        model::lemma_seed_state_len(seed, pts, (k - 1) as nat);
        model::lemma_union_empty_members(init);
        model::lemma_assign_all_len(init, pts);
        model::lemma_assign_all_union(init, pts);
        assert(vstd::multiset::Multiset::<P>::empty().add(pts.to_multiset())
            =~= pts.to_multiset());
        model::lemma_lloyd_props(model::assign_all(init, pts), pts, max_rounds as nat);
    }
    clusters
}

/// The convergence loop: repeats recalculation and assignment until the
/// clustering is unchanged between two consecutive rounds, or until `cap`
/// rounds have run.
fn lloyd_loop<P: DataPoint>(clusters: &mut Vec<Cluster<P>>, points: &Vec<P>, cap: u128)
    requires
        old(clusters)@.len() > 0,
    ensures
        final(clusters)@.len() == old(clusters)@.len(),
        model::views_of(final(clusters)@) == model::lloyd(
            model::views_of(old(clusters)@),
            points@,
            cap as nat,
        ),
{
    let ghost pts = points@;
    let ghost start = model::views_of(old(clusters)@);
    let mut rounds: u128 = 0;
    loop
        invariant
            pts == points@,
            rounds <= cap,
            clusters@.len() == start.len(),
            clusters@.len() > 0,
            model::lloyd(start, pts, cap as nat) == model::lloyd(
                model::views_of(clusters@),
                pts,
                (cap - rounds) as nat,
            ),
        ensures
            model::views_of(clusters@) == model::lloyd(start, pts, cap as nat),
            clusters@.len() == start.len(),
        decreases cap - rounds,
    {
        if rounds == cap {
            break;
        }
        let ghost cur = model::views_of(clusters@);
        let ghost fuel = (cap - rounds) as nat;
        let prev = steps::clone_clusters(clusters);
        steps::recalc_pass(clusters);
        steps::assign_pass(clusters, points);
        rounds = rounds + 1;
        let ghost next = model::views_of(clusters@);
        proof {
            assert(next == model::lloyd_step(cur, pts));
        }
        if steps::clusters_equal(&prev, clusters) {
            proof {
                model::lemma_lloyd_fixpoint(cur, pts, fuel);
                model::lemma_lloyd_fixpoint(cur, pts, (fuel - 1) as nat);
            }
            break;
        }
        proof {
            assert(model::lloyd(cur, pts, fuel) == model::lloyd(next, pts, (fuel - 1) as nat));
        }
    }
}

/// Clustering with k-means++ seeding, drawing a fresh seed from the
/// operating system. Whatever that seed turns out to be, the result is
/// the clustering the seeded algorithm computes for it.
pub fn kmeans<P: DataPoint>(k: usize, datapoints: Vec<P>) -> (r: Vec<Cluster<P>>)
    requires
        1 <= k as int <= datapoints@.len(),
    ensures
        r@.len() == k as int,
        model::members_union(model::views_of(r@)) == datapoints@.to_multiset(),
        exists|seed: u64|
            model::views_of(r@) == model::kmeans_model(seed, k as int, datapoints@),
{
    let ghost pts = datapoints@;
    let seed = rng::fresh_seed();
    let r = kmeans_seeded(seed, k, datapoints);
    proof {
        assert(model::views_of(r@) == model::kmeans_model(seed, k as int, pts));
    }
    r
}

/// Clustering that rejects invalid arguments instead of assuming them
/// away: `Ok` exactly when `1 <= k <= datapoints.len()`.
pub fn try_kmeans<P: DataPoint>(k: usize, datapoints: Vec<P>) -> (r: Result<
    Vec<Cluster<P>>,
    KmeansError,
>)
    ensures
        r is Ok <==> 1 <= k as int <= datapoints@.len(),
        r matches Ok(cs) ==> {
            &&& cs@.len() == k as int
            &&& model::members_union(model::views_of(cs@)) == datapoints@.to_multiset()
            &&& exists|seed: u64|
                model::views_of(cs@) == model::kmeans_model(seed, k as int, datapoints@)
        },
        r is Err ==> r == Result::<Vec<Cluster<P>>, KmeansError>::Err(
            KmeansError::InvalidArgument,
        ),
{
    if k < 1 || k > datapoints.len() {
        return Err(KmeansError::InvalidArgument);
    }
    Ok(kmeans(k, datapoints))
}

/// Picks the candidate index selected by a weighted draw: the first index
/// whose cumulative weight strictly exceeds the drawn value.
pub fn select_index(weights: &Vec<u64>, draw: u128) -> (i: usize)
    requires
        weights@.len() > 0,
        (draw as int) < model::sum_int(model::weights_int(weights@)),
    ensures
        i < weights@.len(),
        i as int == model::select_model(model::weights_int(weights@), draw as int),
{
    let ghost ws = model::weights_int(weights@);
    proof {
        assert(forall|t: int| 0 <= t < ws.len() ==> #[trigger] ws[t] >= 0);
        model::lemma_sum_int_bounds(ws, 0, u64::MAX as int);
        assert(ws.take(0) =~= Seq::<int>::empty());
    }
    let mut i: usize = 0;
    let mut acc: u128 = 0;
    while i < weights.len() - 1 && acc + (weights[i] as u128) <= draw
        invariant
            ws == model::weights_int(weights@),
            weights@.len() > 0,
            (draw as int) < model::sum_int(ws),
            model::sum_int(ws) <= u64::MAX as int * ws.len(),
            i < weights@.len(),
            acc as int == model::sum_int(ws.take(i as int)),
            acc <= draw,
        decreases weights@.len() - i,
    {
        proof {
            model::lemma_sum_int_take_step(ws, i as int);
        }
        acc = acc + (weights[i] as u128);
        i = i + 1;
    }
    proof {
        model::lemma_sum_int_take_step(ws, i as int);
        if i >= weights@.len() - 1 {
            model::lemma_sum_int_take_all(ws);
        }
        model::lemma_select_model_unique(ws, draw as int, i as int);
    }
    i
}

} // verus!
