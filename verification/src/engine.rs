//! The concurrent shard-fetch engine as a state machine: the caller's
//! task runner asks to launch shards, reports progress and hands back
//! per-shard outcomes; the engine enforces the admission limit, keeps the
//! progress table, and reduces all settled outcomes to one aggregated
//! result. A shard's failure releases its slot and blocks nothing else.

use vstd::prelude::*;
use crate::gate::{AdmissionGate, spec_acquire, spec_release};
use crate::progress::ProgressAggregator;
use crate::merge::{
    Record,
    FetchError,
    merge_and_dedup,
    sort_by_change_desc,
    dedup_codes,
    merged_ok,
    count_ok,
    sorted_desc,
};

verus! {

/// How many shards have settled (reported an outcome).
pub open spec fn count_settled(s: Seq<Option<Result<Vec<Record>, FetchError>>>) -> int
    decreases s.len(),
{
    if s.len() == 0 {
        0int
    } else {
        count_settled(s.drop_last()) + (if s.last() is Some {
            1int
        } else {
            0int
        })
    }
}

/// The outcomes of a fully settled table, in shard order.
pub open spec fn settled_results(s: Seq<Option<Result<Vec<Record>, FetchError>>>) -> Seq<
    Result<Vec<Record>, FetchError>,
>
    decreases s.len(),
{
    if s.len() == 0 {
        Seq::empty()
    } else {
        settled_results(s.drop_last()) + (match s.last() {
            Some(r) => seq![r],
            None => Seq::empty(),
        })
    }
}

proof fn lemma_count_settled_le_len(s: Seq<Option<Result<Vec<Record>, FetchError>>>)
    ensures
        0 <= count_settled(s) <= s.len(),
    decreases s.len(),
{
    if s.len() > 0 {
        lemma_count_settled_le_len(s.drop_last());
    }
}

proof fn lemma_count_settled_missing(s: Seq<Option<Result<Vec<Record>, FetchError>>>, k: int)
    requires
        0 <= k < s.len(),
        s[k] is None,
    ensures
        count_settled(s) <= s.len() - 1,
    decreases s.len(),
{
    if k < s.len() - 1 {
        assert(s.drop_last()[k] == s[k]);
        lemma_count_settled_missing(s.drop_last(), k);
    } else {
        lemma_count_settled_le_len(s.drop_last());
    }
}

proof fn lemma_count_settled_update(
    s: Seq<Option<Result<Vec<Record>, FetchError>>>,
    k: int,
    v: Result<Vec<Record>, FetchError>,
)
    requires
        0 <= k < s.len(),
        s[k] is None,
    ensures
        count_settled(s.update(k, Some(v))) == count_settled(s) + 1,
    decreases s.len(),
{
    let t = s.update(k, Some(v));
    if k < s.len() - 1 {
        assert(t.drop_last() =~= s.drop_last().update(k, Some(v)));
        assert(t.last() == s.last());
        lemma_count_settled_update(s.drop_last(), k, v);
    } else {
        assert(t.drop_last() =~= s.drop_last());
        assert(t.last() == Some(v));
    }
}

proof fn lemma_count_settled_full(s: Seq<Option<Result<Vec<Record>, FetchError>>>)
    requires
        count_settled(s) == s.len(),
    ensures
        forall|i: int| 0 <= i < s.len() ==> s[i] is Some,
    decreases s.len(),
{
    if s.len() > 0 {
        lemma_count_settled_le_len(s.drop_last());
        lemma_count_settled_full(s.drop_last());
        assert forall|i: int| 0 <= i < s.len() implies s[i] is Some by {
            if i < s.len() - 1 {
                assert(s.drop_last()[i] == s[i]);
            }
        }
    }
}

/// What one fetch session hands back: the merged, de-duplicated, sorted
/// records, how many shards succeeded out of how many, and the final
/// aggregate progress, which is always 100.
pub struct AggregatedResult {
    pub records: Vec<Record>,
    pub success_count: usize,
    pub total: usize,
    pub final_progress: u32,
}

/// One fetch session over `total` shards under a concurrency limit.
pub struct FetchEngine {
    pub gate: AdmissionGate,
    pub progress: ProgressAggregator,
    pub outcomes: Vec<Option<Result<Vec<Record>, FetchError>>>,
    pub launched: usize,
    pub settled: usize,
}

impl FetchEngine {
    pub open spec fn spec_total(self) -> int {
        self.outcomes@.len() as int
    }

    /// The engine invariant. In particular the limiter holds exactly one
    /// slot per launched-but-unsettled shard, so at most
    /// `gate.limit` shards are ever in flight at once.
    pub open spec fn wf(self) -> bool {
        &&& self.gate.wf()
        &&& self.progress.wf()
        &&& self.progress.table@.len() == self.outcomes@.len()
        &&& self.launched <= self.outcomes@.len()
        &&& self.settled <= self.launched
        &&& self.settled == count_settled(self.outcomes@)
        &&& self.gate.spec_active() == self.launched - self.settled
        &&& forall|i: int| self.launched <= i < self.outcomes@.len() ==> self.outcomes@[i] is None
    }

    /// A fresh session: nothing launched, every shard's progress at zero.
    pub fn new(total_shards: usize, concurrency_limit: usize) -> (e: Self)
        requires
            1 <= total_shards <= 0xFFFF_FFFF,
            concurrency_limit >= 1,
        ensures
            e.wf(),
            e.spec_total() == total_shards,
            e.gate.spec_limit() == concurrency_limit,
            e.launched == 0,
            e.settled == 0,
    {
        let gate = AdmissionGate::new(concurrency_limit);
        let progress = ProgressAggregator::new(total_shards);
        let mut outcomes: Vec<Option<Result<Vec<Record>, FetchError>>> = Vec::new();
        let mut i: usize = 0;
        while i < total_shards
            invariant
                i <= total_shards,
                outcomes@.len() == i,
                count_settled(outcomes@) == 0,
                forall|j: int| 0 <= j < i ==> outcomes@[j] is None,
            decreases total_shards - i,
        {
            let ghost before = outcomes@;
            outcomes.push(None);
            proof {
                assert(outcomes@.drop_last() =~= before);
            }
            i = i + 1;
        }
        FetchEngine { gate, progress, outcomes, launched: 0, settled: 0 }
    }

    /// Ask to start the next shard. It is admitted exactly when shards
    /// remain unlaunched and a slot is free; the returned shard
    /// index is dense, starting at zero.
    pub fn try_launch(&mut self) -> (r: Option<usize>)
        requires
            old(self).wf(),
        ensures
            final(self).wf(),
            final(self).spec_total() == old(self).spec_total(),
            final(self).gate.spec_limit() == old(self).gate.spec_limit(),
            r.is_some() == (old(self).launched < old(self).spec_total() && old(
                self,
            ).gate.spec_active() < old(self).gate.spec_limit()),
            r matches Some(shard) ==> shard == old(self).launched && shard < old(self).spec_total()
                && final(self).launched == old(self).launched + 1 && final(self).gate
                == spec_acquire(old(self).gate) && final(self).outcomes == old(self).outcomes
                && final(self).progress == old(self).progress && final(self).settled == old(
                self,
            ).settled,
            r is None ==> *final(self) == *old(self),
    {
        if self.launched < self.outcomes.len() {
            if self.gate.try_acquire() {
                let shard = self.launched;
                self.launched = self.launched + 1;
                Some(shard)
            } else {
                None
            }
        } else {
            None
        }
    }

    /// Record a shard's progress report and hand back the recomputed
    /// aggregate for immediate publication.
    pub fn report_progress(&mut self, shard: usize, value: u32) -> (agg: u32)
        requires
            old(self).wf(),
            shard < old(self).spec_total(),
            value <= 100,
        ensures
            final(self).wf(),
            final(self).progress.table@ == old(self).progress.table@.update(shard as int, value),
            agg == final(self).progress.spec_aggregate(),
            agg <= 100,
            final(self).gate == old(self).gate,
            final(self).outcomes == old(self).outcomes,
            final(self).launched == old(self).launched,
            final(self).settled == old(self).settled,
    {
        self.progress.update(shard, value)
    }

    /// Settle one launched shard with its outcome, success or failure
    /// alike, and give the admission slot back: no exit path holds it.
    pub fn task_finished(&mut self, shard: usize, outcome: Result<Vec<Record>, FetchError>)
        requires
            old(self).wf(),
            shard < old(self).launched,
            old(self).outcomes@[shard as int] is None,
        ensures
            final(self).wf(),
            final(self).outcomes@ == old(self).outcomes@.update(shard as int, Some(outcome)),
            final(self).settled == old(self).settled + 1,
            final(self).gate == spec_release(old(self).gate),
            final(self).launched == old(self).launched,
            final(self).progress == old(self).progress,
            final(self).spec_total() == old(self).spec_total(),
    {
        proof {
            let s = self.outcomes@;
            let l = self.launched as int;
            lemma_count_settled_tail(s, l);
            assert(s.subrange(0, l)[shard as int] == s[shard as int]);
            lemma_count_settled_missing(s.subrange(0, l), shard as int);
            lemma_count_settled_update(s, shard as int, outcome);
        }
        self.outcomes[shard] = Some(outcome);
        self.settled = self.settled + 1;
        self.gate.release();
    }

    /// Whether every launched shard has settled and none remain.
    pub fn is_done(&self) -> (r: bool)
        requires
            self.wf(),
        ensures
            r == (self.settled == self.spec_total()),
    {
        self.settled == self.outcomes.len()
    }

    /// Reduce a fully settled session: merge the successful shards'
    /// records in shard order, de-duplicate by code keeping the first
    /// occurrence, sort by change descending, and report the success
    /// count; the final aggregate progress is 100 unconditionally, shard
    /// failures notwithstanding.
    pub fn finish(self) -> (res: AggregatedResult)
        requires
            self.wf(),
            self.settled == self.spec_total(),
        ensures
            res.total == self.spec_total(),
            res.success_count == count_ok(settled_results(self.outcomes@)),
            res.success_count <= res.total,
            sorted_desc(res.records@),
            res.records@.to_multiset() == dedup_codes(
                merged_ok(settled_results(self.outcomes@)),
            ).to_multiset(),
            res.final_progress == 100,
    {
        proof {
            lemma_count_settled_full(self.outcomes@);
        }
        let ghost all = self.outcomes@;
        let total = self.outcomes.len();
        let mut rest = self.outcomes;
        let mut results: Vec<Result<Vec<Record>, FetchError>> = Vec::new();
        while rest.len() > 0
            invariant
                rest@.len() <= all.len(),
                rest@ == all.subrange(all.len() - rest@.len(), all.len() as int),
                results@ == settled_results(all.subrange(0, all.len() - rest@.len())),
                forall|i: int| 0 <= i < all.len() ==> all[i] is Some,
            decreases rest@.len(),
        {
            let ghost i = all.len() - rest@.len();
            let item = rest.remove(0);
            proof {
                assert(item == all[i as int]);
                assert(rest@ =~= all.subrange(i + 1, all.len() as int));
                assert(all.subrange(0, i + 1).drop_last() =~= all.subrange(0, i as int));
                assert(all.subrange(0, i + 1).last() == all[i as int]);
            }
            match item {
                Some(r) => {
                    results.push(r);
                },
                None => {
                    proof {
                        assert(false);
                    }
                },
            }
        }
        proof {
            assert(all.subrange(0, all.len() as int) =~= all);
        }
        let (merged, okc) = merge_and_dedup(results);
        let sorted = sort_by_change_desc(merged);
        proof {
            lemma_settled_len(all);
        }
        AggregatedResult { records: sorted, success_count: okc, total, final_progress: 100 }
    }
}

proof fn lemma_settled_len(s: Seq<Option<Result<Vec<Record>, FetchError>>>)
    ensures
        settled_results(s).len() <= s.len(),
    decreases s.len(),
{
    if s.len() > 0 {
        lemma_settled_len(s.drop_last());
    }
}

/// Entries at or past `bound` are all unsettled, so they add nothing to
/// the settled count.
proof fn lemma_count_settled_tail(s: Seq<Option<Result<Vec<Record>, FetchError>>>, bound: int)
    requires
        0 <= bound <= s.len(),
        forall|i: int| bound <= i < s.len() ==> s[i] is None,
    ensures
        count_settled(s) == count_settled(s.subrange(0, bound)),
    decreases s.len(),
{
    if s.len() > bound {
        assert(s.last() is None);
        lemma_count_settled_tail(s.drop_last(), bound);
        assert(s.drop_last().subrange(0, bound) =~= s.subrange(0, bound));
    } else {
        assert(s.subrange(0, bound) =~= s);
    }
}

/// The result of a session with no shards at all: immediately empty, no
/// successes, and the aggregate progress jumps straight to 100.
pub fn empty_session_result() -> (res: AggregatedResult)
    ensures
        res.records@ == Seq::<Record>::empty(),
        res.success_count == 0,
        res.total == 0,
        res.final_progress == 100,
{
    AggregatedResult { records: Vec::new(), success_count: 0, total: 0, final_progress: 100 }
}

/// A session that satisfies its invariant never has more shards in
/// flight than its concurrency limit.
pub proof fn lemma_admission_bounded(e: FetchEngine)
    requires
        e.wf(),
    ensures
        e.launched - e.settled <= e.gate.spec_limit(),
{
}

} // verus!
