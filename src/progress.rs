//! Coverage progress of one resolver: which results reached counters that neither the
//! background activity nor earlier results had reached.

use crate::counters::{count_nonzero, max_u32, Counters};
use vstd::prelude::*;

verus! {

/// `c` with every position set in `p` cleared.
pub open spec fn discarded(c: Seq<u32>, p: Seq<u32>) -> Seq<u32> {
    Seq::new(c.len(), |i: int| if p[i] > 0 { 0u32 } else { c[i] })
}

/// The pairwise maximum of `a` and `b`.
pub open spec fn maxed(a: Seq<u32>, b: Seq<u32>) -> Seq<u32> {
    Seq::new(a.len(), |i: int| max_u32(a[i], b[i]))
}

pub open spec fn has_any(c: Seq<u32>) -> bool {
    exists|i: int| 0 <= i < c.len() && c[i] > 0
}

/// The counters of a result that neither the background activity nor the coverage so far had.
pub open spec fn fresh(c: Seq<u32>, background: Seq<u32>, coverage: Seq<u32>) -> Seq<u32> {
    discarded(discarded(c, background), coverage)
}

/// Whether each result brought new coverage, and the coverage after all of them, taking the
/// results in order.
pub open spec fn coverage_fold(results: Seq<Seq<u32>>, background: Seq<u32>, coverage: Seq<u32>) -> (
    Seq<bool>,
    Seq<u32>,
)
    decreases results.len(),
{
    if results.len() == 0 {
        (Seq::empty(), coverage)
    } else {
        let (status, cov) = coverage_fold(results.drop_last(), background, coverage);
        let f = fresh(results.last(), background, cov);
        (status.push(has_any(f)), maxed(cov, f))
    }
}

proof fn lemma_fold_len(results: Seq<Seq<u32>>, background: Seq<u32>, coverage: Seq<u32>)
    ensures
        coverage_fold(results, background, coverage).0.len() == results.len(),
    decreases results.len(),
{
    if results.len() > 0 {
        lemma_fold_len(results.drop_last(), background, coverage);
    }
}

/// Whether a result reached new counters.
#[derive(Clone, Copy, Debug, PartialEq, Eq, Structural)]
pub enum CoverageStatus {
    NewBranches,
    Unchanged,
}

/// The size of the coverage map and how much of it has been reached.
#[derive(Clone, Copy, Debug, PartialEq, Eq, Structural)]
pub struct CoverageStats {
    pub edges: u64,
    pub explored_edges: u64,
}

pub open spec fn counter_views(v: Seq<Counters>) -> Seq<Seq<u32>> {
    v.map_values(|c: Counters| c@)
}

/// Takes the counters of a batch of results into the coverage of one resolver.
///
/// For each result, the counters outside the background activity and outside the coverage so far
/// are its new coverage; the result has new branches when any of them is set, and the coverage
/// grows to the pairwise maximum with them.
pub fn update_coverage(coverage: &mut Counters, background: &Counters, results: &Vec<Counters>) -> (r: (
    Vec<CoverageStatus>,
    CoverageStats,
))
    requires
        old(coverage)@.len() == background@.len(),
        forall|k: int| 0 <= k < results@.len() ==> (#[trigger] results@[k])@.len() == background@.len(),
    ensures
        final(coverage)@ == coverage_fold(counter_views(results@), background@, old(coverage)@).1,
        r.0@.len() == results@.len(),
        forall|k: int|
            0 <= k < results@.len() ==> (#[trigger] r.0@[k] == CoverageStatus::NewBranches)
                == coverage_fold(counter_views(results@), background@, old(coverage)@).0[k],
        r.1.edges == final(coverage)@.len(),
        r.1.explored_edges == count_nonzero(final(coverage)@),
{
    let ghost views = counter_views(results@);
    let mut statuses: Vec<CoverageStatus> = Vec::new();
    let mut k: usize = 0;
    while k < results.len()
        invariant
            k <= results@.len(),
            views == counter_views(results@),
            coverage@.len() == background@.len(),
            forall|j: int| 0 <= j < results@.len() ==> (#[trigger] results@[j])@.len() == background@.len(),
            coverage@ == coverage_fold(views.subrange(0, k as int), background@, old(coverage)@).1,
            statuses@.len() == k,
            forall|j: int|
                0 <= j < k ==> (#[trigger] statuses@[j] == CoverageStatus::NewBranches)
                    == coverage_fold(views.subrange(0, k as int), background@, old(coverage)@).0[j],
        decreases results@.len() - k,
    {
        let ghost prefix = views.subrange(0, k + 1);
        let ghost before = coverage_fold(views.subrange(0, k as int), background@, old(coverage)@);
        proof {
            assert(prefix.drop_last() =~= views.subrange(0, k as int));
            assert(prefix.last() == results@[k as int]@);
        }
        let mut new_coverage = results[k].clone();
        new_coverage.discard_counters_by_pattern(background);
        new_coverage.discard_counters_by_pattern(coverage);
        proof {
            assert(new_coverage@ =~= fresh(results@[k as int]@, background@, coverage@));
        }
        coverage.max_pairwise(&new_coverage);
        proof {
            assert(coverage@ =~= maxed(before.1, new_coverage@));
        }
        let status = if new_coverage.has_counters_set() {
            CoverageStatus::NewBranches
        } else {
            CoverageStatus::Unchanged
        };
        statuses.push(status);
        proof {
            let after = coverage_fold(prefix, background@, old(coverage)@);
            lemma_fold_len(views.subrange(0, k as int), background@, old(coverage)@);
            assert(after.0 =~= before.0.push(has_any(new_coverage@)));
            assert forall|j: int|
                0 <= j < k + 1 implies (#[trigger] statuses@[j] == CoverageStatus::NewBranches)
                    == after.0[j] by {
                if j < k {
                    assert(after.0[j] == before.0[j]);
                } else {
                    assert(statuses@[j] == status);
                    assert(after.0[j] == has_any(new_coverage@));
                }
            }
        }
        k = k + 1;
    }
    proof {
        assert(views.subrange(0, k as int) =~= views);
    }
    let stats = CoverageStats { edges: coverage.len() as u64, explored_edges: coverage.count() as u64 };
    (statuses, stats)
}

} // verus!
