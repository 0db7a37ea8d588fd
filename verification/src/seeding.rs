//! k-means++ seeding: the first centroid is drawn uniformly, every later
//! one by a weighted draw favoring candidates far from all chosen
//! centroids.

use vstd::prelude::*;
use crate::model;
use crate::rng;
use crate::select_index;
use crate::steps::clone_points;
use crate::types::Cluster;
use crate::types::DataPoint;

verus! {

/// Computes each remaining candidate's weight: its squared distance to
/// the nearest chosen centroid.
fn compute_weights<P: DataPoint>(cents: &Vec<Cluster<P>>, pool: &Vec<P>) -> (r: Vec<u64>)
    requires
        cents@.len() > 0,
    ensures
        r@.len() == pool@.len(),
        model::weights_int(r@) == model::seed_weights(model::centroids_of(cents@), pool@),
{
    let ghost cseq = model::centroids_of(cents@);
    let mut r: Vec<u64> = Vec::new();
    let mut i: usize = 0;
    while i < pool.len()
        invariant
            cseq == model::centroids_of(cents@),
            cents@.len() > 0,
            i <= pool@.len(),
            r@.len() == i,
            forall|j: int| 0 <= j < i as int ==> #[trigger] r@[j] as int == model::min_dist_sq(
                cseq,
                pool@[j],
            ),
        decreases pool@.len() - i,
    {
        let mut m = pool[i].dist_sq(&cents[0].centroid);
        proof {
            P::lemma_dist_sq_symmetric(pool@[i as int], cseq[0]);
            assert(cseq.take(1) =~= seq![cseq[0]]);
        }
        let mut t: usize = 1;
        while t < cents.len()
            invariant
                cseq == model::centroids_of(cents@),
                cents@.len() > 0,
                i < pool@.len(),
                1 <= t <= cents@.len(),
                m as int == model::min_dist_sq(cseq.take(t as int), pool@[i as int]),
            decreases cents@.len() - t,
        {
            let d = pool[i].dist_sq(&cents[t].centroid);
            proof {
                P::lemma_dist_sq_symmetric(pool@[i as int], cseq[t as int]);
                assert(cseq.take(t as int + 1).drop_last() =~= cseq.take(t as int));
                assert(cseq.take(t as int + 1).last() == cseq[t as int]);
            }
            if d < m {
                m = d;
            }
            t = t + 1;
        }
        proof {
            assert(cseq.take(cseq.len() as int) =~= cseq);
            P::lemma_dist_sq_symmetric(pool@[i as int], cseq[0]);
        }
        r.push(m);
        i = i + 1;
    }
    proof {
        assert(model::weights_int(r@) =~= model::seed_weights(cseq, pool@));
    }
    r
}

/// Sums all candidate weights.
fn sum_weights(weights: &Vec<u64>) -> (total: u128)
    ensures
        total as int == model::sum_int(model::weights_int(weights@)),
{
    let ghost ws = model::weights_int(weights@);
    proof {
        assert(ws.take(0) =~= Seq::<int>::empty());
    }
    let mut total: u128 = 0;
    let mut i: usize = 0;
    while i < weights.len()
        invariant
            ws == model::weights_int(weights@),
            i <= weights@.len(),
            total as int == model::sum_int(ws.take(i as int)),
            total as int <= i as int * (u64::MAX as int),
        decreases weights@.len() - i,
    {
        proof {
            model::lemma_sum_int_take_step(ws, i as int);
            assert((i as int + 1) * (u64::MAX as int) == i as int * (u64::MAX as int)
                + u64::MAX as int) by (nonlinear_arith);
            assert(i as int * (u64::MAX as int) <= (usize::MAX as int) * (u64::MAX as int))
                by (nonlinear_arith)
                requires 0 <= i as int <= usize::MAX as int;
        }
        total = total + (weights[i] as u128);
        i = i + 1;
    }
    proof {
        model::lemma_sum_int_take_all(ws);
    }
    total
}

/// Chooses `k` starting centroids by k-means++ weighted sampling and
/// wraps each in a fresh, memberless cluster.
pub fn seed_clusters<P: DataPoint>(seed: u64, k: usize, points: &Vec<P>) -> (r: Vec<Cluster<P>>)
    requires
        1 <= k as int,
        k as int <= points@.len(),
    ensures
        r@.len() == k as int,
        model::views_of(r@) == model::initial_clusters(seed, k as int, points@),
{
    let ghost pts = points@;
    let mut src = rng::seed_stream_new(seed);
    let w0 = rng::seed_stream_next(&mut src);
    let n = points.len();
    let i0 = (w0 % (n as u64)) as usize;
    let mut pool = clone_points(points);
    let first = pool.remove(i0);
    let mut cents: Vec<Cluster<P>> = Vec::new();
    cents.push(Cluster::new(&first));
    proof {
        assert(model::centroids_of(cents@) =~= model::seed_state(seed, pts, 0).0);
        assert(pool@ =~= model::seed_state(seed, pts, 0).1);
    }
    while cents.len() < k
        invariant
            pts == points@,
            1 <= cents@.len() <= k,
            k as int <= pts.len(),
            src.seed@ == seed,
            src.drawn@ == cents@.len() as int,
            (model::centroids_of(cents@), pool@) == model::seed_state(
                seed,
                pts,
                (cents@.len() - 1) as nat,
            ),
            forall|j: int| 0 <= j < cents@.len() ==> (#[trigger] cents@[j]).points@
                == Seq::<P>::empty(),
        decreases k - cents@.len(),
    {
        let ghost rounds = (cents@.len() - 1) as nat;
        proof {
            model::lemma_seed_state_len(seed, pts, rounds);
        }
        let weights = compute_weights(&cents, &pool);
        let total = sum_weights(&weights);
        let word = rng::seed_stream_next(&mut src);
        let pick: usize = if total > 0 {
            let draw = (word as u128) % total;
            select_index(&weights, draw)
        } else {
            0
        };
        let chosen = pool.remove(pick);
        cents.push(Cluster::new(&chosen));
        proof {
            let prev = model::seed_state(seed, pts, rounds);
            let step = model::seed_step(seed, rounds as int + 1, prev.0, prev.1);
            assert(model::centroids_of(cents@) =~= step.0);
            assert(model::seed_state(seed, pts, (rounds + 1) as nat) == step);
        }
    }
    proof {
        model::lemma_seed_state_len(seed, pts, (k - 1) as nat);
        assert(model::views_of(cents@) =~= model::initial_clusters(seed, k as int, pts));
    }
    cents
}

} // verus!
