use vstd::prelude::*;
use crate::config::FireConfig;
use crate::sim::simulate_fire;

verus! {

/// Number of entries of `results` that strictly exceed `threshold`.
pub open spec fn spec_count_over(results: Seq<usize>, threshold: usize) -> int
    decreases results.len(),
{
    if results.len() == 0 {
        0
    } else {
        spec_count_over(results.drop_last(), threshold) + if results.last() > threshold {
            1int
        } else {
            0int
        }
    }
}

/// An over-threshold count is between 0 and the number of runs: no run is
/// double-counted and none is invented.
pub proof fn lemma_count_over_bounds(results: Seq<usize>, threshold: usize)
    ensures
        0 <= spec_count_over(results, threshold) <= results.len(),
    decreases results.len(),
{
    if results.len() > 0 {
        lemma_count_over_bounds(results.drop_last(), threshold);
    }
}

/// If every run exceeds the threshold, every run is counted.
pub proof fn lemma_count_over_all(results: Seq<usize>, threshold: usize)
    requires
        forall|i: int| 0 <= i < results.len() ==> results[i] > threshold,
    ensures
        spec_count_over(results, threshold) == results.len(),
    decreases results.len(),
{
    if results.len() > 0 {
        lemma_count_over_all(results.drop_last(), threshold);
    }
}

/// If no run exceeds the threshold, none is counted.
pub proof fn lemma_count_over_none(results: Seq<usize>, threshold: usize)
    requires
        forall|i: int| 0 <= i < results.len() ==> !(results[i] > threshold),
    ensures
        spec_count_over(results, threshold) == 0,
    decreases results.len(),
{
    if results.len() > 0 {
        lemma_count_over_none(results.drop_last(), threshold);
    }
}

/// Counts how many collected burned counts strictly exceed `threshold`.
///
/// This is the driver's whole aggregation step: the count equals exactly
/// the number of entries over the threshold, so no run is dropped and
/// none is counted twice, however the runs themselves were scheduled.
pub fn count_over_threshold(results: &Vec<usize>, threshold: usize) -> (over: usize)
    ensures
        over == spec_count_over(results@, threshold),
        over <= results@.len(),
{
    let mut over: usize = 0;
    let mut i: usize = 0;
    while i < results.len()
        invariant
            i <= results@.len(),
            over <= i,
            over == spec_count_over(results@.take(i as int), threshold),
        decreases results@.len() - i,
    {
        if results[i] > threshold {
            over = over + 1;
        }
        i = i + 1;
        proof {
            let pre = results@.take(i - 1);
            let cur = results@.take(i as int);
            assert(cur.drop_last() =~= pre);
            assert(cur.last() == results@[i - 1]);
        }
    }
    proof {
        assert(results@.take(results@.len() as int) =~= results@);
    }
    over
}

/// Runs `n` independent simulations sequentially and counts those whose
/// burned count strictly exceeds `cfg.threshold`.
///
/// A threshold of zero lies below every possible burned count, so every
/// run is counted; a threshold of at least the grid size lies at or above
/// every possible burned count, so no run is counted.
pub fn run_batch(cfg: &FireConfig, n: usize) -> (over: usize)
    requires
        cfg.wf(),
    ensures
        over <= n,
        cfg.threshold == 0 ==> over == n,
        cfg.threshold >= cfg.total() ==> over == 0,
{
    let mut over: usize = 0;
    let mut i: usize = 0;
    while i < n
        invariant
            cfg.wf(),
            i <= n,
            over <= i,
            cfg.threshold == 0 ==> over == i,
            cfg.threshold >= cfg.total() ==> over == 0,
        decreases n - i,
    {
        let burned = simulate_fire(cfg);
        if burned > cfg.threshold {
            over = over + 1;
        }
        i = i + 1;
    }
    over
}

} // verus!
