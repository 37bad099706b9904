//! Central merge of per-shard fetch results: successful shards' records are
//! concatenated in shard order, de-duplicated by domain identifier keeping
//! the first occurrence, and sorted by the change key, descending. A failed
//! shard contributes nothing and blocks nothing.

use vstd::prelude::*;
use vstd::multiset::Multiset;
use crate::bytes::bytes_eq;

verus! {

broadcast use vstd::seq_lib::group_to_multiset_ensures, vstd::seq_lib::to_multiset_insert;

/// One result record. Monetary fields are fixed-point: `price`,
/// `prev_close`, `limit_up` and `limit_down` are in hundredths of the
/// quote currency, `change` (the sort key) in hundredths of a percent.
/// `index` is the caller's handle to any further payload it keeps for
/// this record.
pub struct Record {
    pub code: Vec<u8>,
    pub name: Vec<u8>,
    pub price: i64,
    pub change: i64,
    pub prev_close: i64,
    pub limit_up: i64,
    pub limit_down: i64,
    pub index: u64,
}

/// Why one shard's fetch failed.
pub enum FetchErrorKind {
    /// The worker process could not be started.
    Launch,
    /// The worker's output stream could not be opened or read.
    Stream,
    /// The payload was not in the expected structured form.
    Parse,
    /// The network call failed or timed out.
    Network,
}

/// A failed shard: which shard, why, and a human-readable cause.
pub struct FetchError {
    pub shard: usize,
    pub kind: FetchErrorKind,
    pub message: Vec<u8>,
}

/// Some record in `s` carries the code `c`.
pub open spec fn seq_has_code(s: Seq<Record>, c: Seq<u8>) -> bool {
    exists|i: int| 0 <= i < s.len() && (#[trigger] s[i]).code@ == c
}

/// De-duplication by code, first occurrence kept; records with an empty
/// code are dropped.
pub open spec fn dedup_codes(s: Seq<Record>) -> Seq<Record>
    decreases s.len(),
{
    if s.len() == 0 {
        Seq::empty()
    } else {
        let pre = dedup_codes(s.drop_last());
        let r = s.last();
        if r.code@.len() > 0 && !seq_has_code(s.drop_last(), r.code@) {
            pre.push(r)
        } else {
            pre
        }
    }
}

/// All records of the successful shards, in shard order.
pub open spec fn merged_ok(results: Seq<Result<Vec<Record>, FetchError>>) -> Seq<Record>
    decreases results.len(),
{
    if results.len() == 0 {
        Seq::empty()
    } else {
        merged_ok(results.drop_last()) + (match results.last() {
            Ok(v) => v@,
            Err(_) => Seq::empty(),
        })
    }
}

/// How many shards succeeded.
pub open spec fn count_ok(results: Seq<Result<Vec<Record>, FetchError>>) -> int
    decreases results.len(),
{
    if results.len() == 0 {
        0int
    } else {
        count_ok(results.drop_last()) + (if results.last() is Ok {
            1int
        } else {
            0int
        })
    }
}

/// The deduplicated sequence carries a code exactly when the input carries
/// it and it is non-empty.
pub proof fn lemma_dedup_has_code(s: Seq<Record>, c: Seq<u8>)
    ensures
        seq_has_code(dedup_codes(s), c) <==> (c.len() > 0 && seq_has_code(s, c)),
    decreases s.len(),
{
    if s.len() == 0 {
    } else {
        let u = s.drop_last();
        let x = s.last();
        lemma_dedup_has_code(u, c);
        assert(forall|i: int| 0 <= i < u.len() ==> u[i] == s[i]);
        if seq_has_code(u, c) {
            let i = choose|i: int| 0 <= i < u.len() && (#[trigger] u[i]).code@ == c;
            assert(s[i].code@ == c);
        }
        let pre0 = dedup_codes(u);
        if seq_has_code(pre0, c) {
            let i = choose|i: int| 0 <= i < pre0.len() && (#[trigger] pre0[i]).code@ == c;
            assert(dedup_codes(s)[i].code@ == c);
        }
        if c.len() > 0 && seq_has_code(s, c) && !seq_has_code(u, c) {
            // the only witness is the last element
            let i = choose|i: int| 0 <= i < s.len() && (#[trigger] s[i]).code@ == c;
            assert(i == s.len() - 1);
            assert(x.code@ == c);
            let d = dedup_codes(s);
            assert(d.last() == x);
            assert(seq_has_code(d, c));
        }
        if seq_has_code(dedup_codes(s), c) {
            let d = dedup_codes(s);
            let pre = dedup_codes(u);
            let i = choose|i: int| 0 <= i < d.len() && (#[trigger] d[i]).code@ == c;
            if x.code@.len() > 0 && !seq_has_code(u, x.code@) {
                if i < pre.len() {
                    assert(pre[i].code@ == c);
                    assert(seq_has_code(pre, c));
                } else {
                    assert(d[i] == x);
                    assert(s[s.len() - 1].code@ == c);
                }
            } else {
                assert(pre[i].code@ == c);
                assert(seq_has_code(pre, c));
            }
        }
    }
}

/// De-duplication leaves at most one record per code.
pub proof fn lemma_dedup_unique(s: Seq<Record>)
    ensures
        forall|i: int, j: int|
            0 <= i < j < dedup_codes(s).len() ==> (#[trigger] dedup_codes(s)[i]).code@ != (
            #[trigger] dedup_codes(s)[j]).code@,
    decreases s.len(),
{
    if s.len() > 0 {
        let u = s.drop_last();
        let x = s.last();
        lemma_dedup_unique(u);
        let pre = dedup_codes(u);
        if x.code@.len() > 0 && !seq_has_code(u, x.code@) {
            assert forall|i: int| 0 <= i < pre.len() implies (#[trigger] pre[i]).code@
                != x.code@ by {
                assert(seq_has_code(pre, pre[i].code@));
                lemma_dedup_has_code(u, pre[i].code@);
            }
            assert(forall|i: int| 0 <= i < pre.len() ==> #[trigger] dedup_codes(s)[i] == pre[i]);
            assert(dedup_codes(s).last() == x);
        }
    }
}

/// Every record that de-duplication keeps stands in the input at a
/// position no later record of the same code precedes: the first
/// occurrence wins.
pub open spec fn is_first_occurrence(s: Seq<Record>, r: Record) -> bool {
    exists|j: int|
        0 <= j < s.len() && #[trigger] s[j] == r && (forall|k: int|
            0 <= k < j ==> (#[trigger] s[k]).code@ != r.code@)
}

pub proof fn lemma_dedup_first_wins(s: Seq<Record>)
    ensures
        forall|i: int|
            0 <= i < dedup_codes(s).len() ==> is_first_occurrence(
                s,
                #[trigger] dedup_codes(s)[i],
            ),
    decreases s.len(),
{
    if s.len() > 0 {
        let u = s.drop_last();
        let x = s.last();
        lemma_dedup_first_wins(u);
        let pre = dedup_codes(u);
        let d = dedup_codes(s);
        assert forall|i: int| 0 <= i < d.len() implies is_first_occurrence(s, d[i]) by {
            if i < pre.len() {
                assert(is_first_occurrence(u, pre[i]));
                let j = choose|j: int|
                    0 <= j < u.len() && #[trigger] u[j] == pre[i] && (forall|k: int|
                        0 <= k < j ==> (#[trigger] u[k]).code@ != pre[i].code@);
                assert(s[j] == pre[i]);
                assert forall|k: int| 0 <= k < j implies (#[trigger] s[k]).code@
                    != pre[i].code@ by {
                    assert(u[k] == s[k]);
                }
                assert(d[i] == pre[i]);
            } else {
                // d[i] is the pushed last element
                assert(d[i] == x);
                let j = s.len() - 1;
                assert(s[j] == x);
                assert(!seq_has_code(u, x.code@));
                assert forall|k: int| 0 <= k < j implies (#[trigger] s[k]).code@ != x.code@ by {
                    assert(u[k] == s[k]);
                    if u[k].code@ == x.code@ {
                        assert(seq_has_code(u, x.code@));
                    }
                }
            }
        }
    }
}

/// A record of a successful shard keeps its code in the merged,
/// de-duplicated result, whatever happened to the other shards.
pub proof fn lemma_ok_shard_survives(
    results: Seq<Result<Vec<Record>, FetchError>>,
    k: int,
    idx: int,
)
    requires
        0 <= k < results.len(),
        results[k] is Ok,
        0 <= idx < results[k]->Ok_0@.len(),
        results[k]->Ok_0@[idx].code@.len() > 0,
    ensures
        seq_has_code(dedup_codes(merged_ok(results)), results[k]->Ok_0@[idx].code@),
{
    lemma_merged_contains(results, k, idx);
    lemma_dedup_has_code(merged_ok(results), results[k]->Ok_0@[idx].code@);
}

proof fn lemma_merged_contains(results: Seq<Result<Vec<Record>, FetchError>>, k: int, idx: int)
    requires
        0 <= k < results.len(),
        results[k] is Ok,
        0 <= idx < results[k]->Ok_0@.len(),
    ensures
        seq_has_code(merged_ok(results), results[k]->Ok_0@[idx].code@),
    decreases results.len(),
{
    let u = results.drop_last();
    let m = merged_ok(results);
    if k < results.len() - 1 {
        lemma_merged_contains(u, k, idx);
        let mu = merged_ok(u);
        let i = choose|i: int| 0 <= i < mu.len() && (#[trigger] mu[i]).code@ == u[k]->Ok_0@[idx].code@;
        assert(m[i] == mu[i]);
    } else {
        let v = results[k]->Ok_0@;
        let i = merged_ok(u).len() + idx;
        assert(m[i] == v[idx]);
    }
}

/// A record of a successful shard keeps its code through merge,
/// de-duplication and any reordering afterwards: every permutation of the
/// merged result still carries it, however many sibling shards failed.
pub proof fn lemma_merged_result_carries_shard(
    records: Seq<Record>,
    results: Seq<Result<Vec<Record>, FetchError>>,
    k: int,
    idx: int,
)
    requires
        records.to_multiset() == dedup_codes(merged_ok(results)).to_multiset(),
        0 <= k < results.len(),
        results[k] is Ok,
        0 <= idx < results[k]->Ok_0@.len(),
        results[k]->Ok_0@[idx].code@.len() > 0,
    ensures
        seq_has_code(records, results[k]->Ok_0@[idx].code@),
{
    lemma_ok_shard_survives(results, k, idx);
    lemma_multiset_keeps_code(
        dedup_codes(merged_ok(results)),
        records,
        results[k]->Ok_0@[idx].code@,
    );
}

/// Two record sequences with the same contents carry the same codes.
pub proof fn lemma_multiset_keeps_code(a: Seq<Record>, b: Seq<Record>, c: Seq<u8>)
    requires
        a.to_multiset() == b.to_multiset(),
        seq_has_code(a, c),
    ensures
        seq_has_code(b, c),
{
    let i = choose|i: int| 0 <= i < a.len() && (#[trigger] a[i]).code@ == c;
    let r = a[i];
    assert(a.contains(r));
    assert(a.to_multiset().count(r) > 0);
    assert(b.contains(r));
    let j = choose|j: int| 0 <= j < b.len() && b[j] == r;
    assert(b[j].code@ == c);
}

/// Whether some record already merged carries this code.
fn code_seen(out: &Vec<Record>, code: &[u8]) -> (r: bool)
    ensures
        r == seq_has_code(out@, code@),
{
    let mut i: usize = 0;
    while i < out.len()
        invariant
            i <= out@.len(),
            forall|j: int| 0 <= j < i ==> (#[trigger] out@[j]).code@ != code@,
        decreases out@.len() - i,
    {
        if bytes_eq(out[i].code.as_slice(), code) {
            return true;
        }
        i = i + 1;
    }
    false
}

/// Merge all successful shards' records in shard order, dropping records
/// whose code is empty or already present; also count the successes.
pub fn merge_and_dedup(results: Vec<Result<Vec<Record>, FetchError>>) -> (r: (Vec<Record>, usize))
    ensures
        r.0@ == dedup_codes(merged_ok(results@)),
        r.1 == count_ok(results@),
        r.1 <= results@.len(),
{
    let ghost all = results@;
    let mut rest = results;
    let n = rest.len();
    proof {
        assert(all.len() == n);
    }
    let mut out: Vec<Record> = Vec::new();
    let mut okc: usize = 0;
    while rest.len() > 0
        invariant
            all.len() <= usize::MAX,
            rest@.len() <= all.len(),
            rest@ == all.subrange(all.len() - rest@.len(), all.len() as int),
            out@ == dedup_codes(merged_ok(all.subrange(0, all.len() - rest@.len()))),
            okc == count_ok(all.subrange(0, all.len() - rest@.len())),
            okc <= all.len() - rest@.len(),
        decreases rest@.len(),
    {
        let ghost i = all.len() - rest@.len();
        let item = rest.remove(0);
        proof {
            assert(item == all[i as int]);
            assert(rest@ =~= all.subrange(i + 1, all.len() as int));
            assert(all.subrange(0, i + 1).drop_last() =~= all.subrange(0, i as int));
            assert(all.subrange(0, i + 1).last() == all[i as int]);
        }
        match item {
            Ok(v) => {
                let ghost base = merged_ok(all.subrange(0, i as int));
                let ghost vall = v@;
                let mut v = v;
                while v.len() > 0
                    invariant
                        v@.len() <= vall.len(),
                        v@ == vall.subrange(vall.len() - v@.len(), vall.len() as int),
                        out@ == dedup_codes(base + vall.subrange(0, vall.len() - v@.len())),
                    decreases v@.len(),
                {
                    let ghost j = vall.len() - v@.len();
                    let ghost q = base + vall.subrange(0, j as int);
                    let rec = v.remove(0);
                    proof {
                        assert(rec == vall[j as int]);
                        assert(v@ =~= vall.subrange(j + 1, vall.len() as int));
                        assert((base + vall.subrange(0, j + 1)) =~= q.push(rec));
                        assert(q.push(rec).drop_last() =~= q);
                        assert(q.push(rec).last() == rec);
                    }
                    let keep = if rec.code.len() == 0 {
                        false
                    } else {
                        proof {
                            lemma_dedup_has_code(q, rec.code@);
                        }
                        !code_seen(&out, rec.code.as_slice())
                    };
                    if keep {
                        out.push(rec);
                    }
                }
                proof {
                    assert(vall.subrange(0, vall.len() as int) =~= vall);
                    assert(merged_ok(all.subrange(0, i + 1)) == base + vall);
                }
                okc = okc + 1;
            },
            Err(_) => {
                proof {
                    assert(merged_ok(all.subrange(0, i + 1)) =~= merged_ok(
                        all.subrange(0, i as int),
                    ));
                }
            },
        }
    }
    proof {
        assert(all.subrange(0, all.len() as int) =~= all);
    }
    (out, okc)
}

/// Descending order on the change key; ties may stand in either order.
pub open spec fn sorted_desc(s: Seq<Record>) -> bool {
    forall|i: int, j: int| 0 <= i < j < s.len() ==> (#[trigger] s[i]).change >= (#[trigger] s[j]).change
}

/// Sort records by change, descending, by insertion into a fresh vector.
/// The result is a permutation of the input.
pub fn sort_by_change_desc(recs: Vec<Record>) -> (r: Vec<Record>)
    ensures
        sorted_desc(r@),
        r@.to_multiset() == recs@.to_multiset(),
{
    let ghost all = recs@;
    let mut rest = recs;
    let mut out: Vec<Record> = Vec::new();
    while rest.len() > 0
        invariant
            rest@.len() <= all.len(),
            rest@ == all.subrange(all.len() - rest@.len(), all.len() as int),
            sorted_desc(out@),
            out@.to_multiset().add(rest@.to_multiset()) == all.to_multiset(),
        decreases rest@.len(),
    {
        let ghost i = all.len() - rest@.len();
        let ghost old_out = out@;
        let ghost old_rest = rest@;
        let rec = rest.remove(0);
        proof {
            assert(old_rest.drop_first() =~= all.subrange(i + 1, all.len() as int));
            assert(rest@ == old_rest.drop_first());
            assert(old_rest =~= old_rest.drop_first().insert(0, rec));
        }
        let mut pos: usize = 0;
        while pos < out.len() && out[pos].change >= rec.change
            invariant
                pos <= out@.len(),
                out@ == old_out,
                forall|k: int| 0 <= k < pos ==> (#[trigger] out@[k]).change >= rec.change,
            decreases out@.len() - pos,
        {
            pos = pos + 1;
        }
        proof {
            assert(pos == out@.len() || out@[pos as int].change < rec.change);
        }
        out.insert(pos, rec);
        proof {
            let newv = old_out.insert(pos as int, rec);
            assert(out@ == newv);
            assert forall|a: int, b: int| 0 <= a < b < newv.len() implies newv[a].change
                >= newv[b].change by {
                if a < pos && b < pos {
                    assert(newv[a] == old_out[a] && newv[b] == old_out[b]);
                } else if a < pos && b == pos {
                    assert(newv[a] == old_out[a]);
                } else if a == pos && b > pos {
                    assert(newv[b] == old_out[b - 1]);
                    assert(pos < old_out.len());
                    assert(old_out[pos as int].change >= old_out[b - 1].change);
                } else if a < pos && b > pos {
                    assert(newv[a] == old_out[a] && newv[b] == old_out[b - 1]);
                } else {
                    assert(newv[a] == old_out[a - 1] && newv[b] == old_out[b - 1]);
                }
            }
        }
    }
    proof {
        assert(rest@.to_multiset() =~= Multiset::<Record>::empty());
        assert(out@.to_multiset() =~= all.to_multiset());
    }
    out
}

} // verus!
