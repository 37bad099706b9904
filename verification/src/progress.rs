//! Per-shard progress table and its single aggregate percentage: every
//! shard starts at zero, an update is last-write-wins per shard, and the
//! aggregate is the integer division of the summed values by the shard
//! count, recomputed after every update.

use vstd::prelude::*;
use vstd::arithmetic::div_mod::lemma_div_multiples_vanish;

verus! {

/// Sum of all values in the table.
pub open spec fn sum_vals(s: Seq<u32>) -> int
    decreases s.len(),
{
    if s.len() == 0 {
        0
    } else {
        sum_vals(s.drop_last()) + s.last()
    }
}

proof fn lemma_sum_bound(s: Seq<u32>)
    requires
        forall|i: int| 0 <= i < s.len() ==> #[trigger] s[i] <= 100,
    ensures
        0 <= sum_vals(s) <= 100 * s.len(),
    decreases s.len(),
{
    if s.len() > 0 {
        lemma_sum_bound(s.drop_last());
    }
}

/// Maps each shard (by dense index) to its last-reported progress value.
pub struct ProgressAggregator {
    pub table: Vec<u32>,
}

impl ProgressAggregator {
    /// Every entry is a percentage, and the table is small enough that the
    /// sum fits comfortably in 64 bits.
    pub open spec fn wf(self) -> bool {
        &&& 1 <= self.table@.len() <= 0xFFFF_FFFF
        &&& forall|i: int| 0 <= i < self.table@.len() ==> #[trigger] self.table@[i] <= 100
    }

    pub open spec fn spec_total(self) -> int {
        self.table@.len() as int
    }

    /// The aggregate percentage the table stands at.
    pub open spec fn spec_aggregate(self) -> int {
        sum_vals(self.table@) / self.table@.len() as int
    }

    /// A fresh table with every shard at zero.
    pub fn new(total_shards: usize) -> (a: Self)
        requires
            1 <= total_shards <= 0xFFFF_FFFF,
        ensures
            a.wf(),
            a.table@.len() == total_shards,
            forall|i: int| 0 <= i < total_shards ==> #[trigger] a.table@[i] == 0,
    {
        let mut table: Vec<u32> = Vec::new();
        let mut i: usize = 0;
        while i < total_shards
            invariant
                i <= total_shards,
                table@.len() == i,
                forall|j: int| 0 <= j < i ==> #[trigger] table@[j] == 0,
            decreases total_shards - i,
        {
            table.push(0);
            i = i + 1;
        }
        ProgressAggregator { table }
    }

    /// Record `value` for `shard` and return the recomputed aggregate, to
    /// be published to the caller's sink right away.
    pub fn update(&mut self, shard: usize, value: u32) -> (agg: u32)
        requires
            old(self).wf(),
            shard < old(self).table@.len(),
            value <= 100,
        ensures
            final(self).wf(),
            final(self).table@ == old(self).table@.update(shard as int, value),
            agg == final(self).spec_aggregate(),
            agg <= 100,
    {
        self.table[shard] = value;
        self.aggregate()
    }

    /// The aggregate percentage: floor of summed values over shard count.
    pub fn aggregate(&self) -> (agg: u32)
        requires
            self.wf(),
        ensures
            agg == self.spec_aggregate(),
            agg <= 100,
    {
        let len = self.table.len();
        let mut acc: u64 = 0;
        let mut i: usize = 0;
        while i < len
            invariant
                self.wf(),
                len == self.table@.len(),
                i <= len,
                acc == sum_vals(self.table@.subrange(0, i as int)),
                acc <= 100 * (i as u64),
            decreases len - i,
        {
            proof {
                let ext = self.table@.subrange(0, i + 1);
                assert(ext.drop_last() =~= self.table@.subrange(0, i as int));
                assert(ext.last() == self.table@[i as int]);
            }
            acc = acc + (self.table[i] as u64);
            i = i + 1;
        }
        proof {
            assert(self.table@.subrange(0, len as int) =~= self.table@);
            lemma_sum_bound(self.table@);
            assert(100 * (len as int) == (len as int) * 100) by (nonlinear_arith);
            lemma_div_multiples_vanish(100, len as int);
            assert((len as int) * 100 == (len as int * 100)) by (nonlinear_arith);
            vstd::arithmetic::div_mod::lemma_div_is_ordered(
                sum_vals(self.table@),
                len as int * 100,
                len as int,
            );
        }
        (acc / (len as u64)) as u32
    }
}

/// Once every shard has reported 100, the aggregate is exactly 100,
/// whatever order the reports arrived in.
pub proof fn lemma_all_shards_complete(t: Seq<u32>)
    requires
        t.len() >= 1,
        forall|i: int| 0 <= i < t.len() ==> #[trigger] t[i] == 100,
    ensures
        sum_vals(t) == 100 * t.len(),
        sum_vals(t) / t.len() as int == 100,
{
    lemma_sum_is_count_times_100(t);
    assert(100 * t.len() == t.len() as int * 100) by (nonlinear_arith);
    lemma_div_multiples_vanish(100, t.len() as int);
    assert((t.len() as int) * 100 == 100 * (t.len() as int)) by (nonlinear_arith);
}

proof fn lemma_sum_is_count_times_100(t: Seq<u32>)
    requires
        forall|i: int| 0 <= i < t.len() ==> #[trigger] t[i] == 100,
    ensures
        sum_vals(t) == 100 * t.len(),
    decreases t.len(),
{
    if t.len() > 0 {
        lemma_sum_is_count_times_100(t.drop_last());
    }
}

} // verus!
