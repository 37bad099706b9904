//! Ordering of on-disk archive listings: the caller reads directory names
//! and modification times, and the library orders them by time for
//! display, newest first or oldest first.

use vstd::prelude::*;
use vstd::multiset::Multiset;

verus! {

broadcast use vstd::seq_lib::group_to_multiset_ensures, vstd::seq_lib::to_multiset_insert;

/// One archive directory: its name and its modification time in seconds
/// since the epoch (zero when unknown).
pub struct ArchiveEntry {
    pub name: Vec<u8>,
    pub updated_at: u64,
}

pub open spec fn sorted_newest_first(s: Seq<ArchiveEntry>) -> bool {
    forall|i: int, j: int|
        0 <= i < j < s.len() ==> (#[trigger] s[i]).updated_at >= (#[trigger] s[j]).updated_at
}

pub open spec fn sorted_oldest_first(s: Seq<ArchiveEntry>) -> bool {
    forall|i: int, j: int|
        0 <= i < j < s.len() ==> (#[trigger] s[i]).updated_at <= (#[trigger] s[j]).updated_at
}

/// Order entries by modification time, newest first; a permutation of the
/// input, ties in either order.
pub fn sort_newest_first(entries: Vec<ArchiveEntry>) -> (r: Vec<ArchiveEntry>)
    ensures
        sorted_newest_first(r@),
        r@.to_multiset() == entries@.to_multiset(),
{
    let ghost all = entries@;
    let mut rest = entries;
    let mut out: Vec<ArchiveEntry> = Vec::new();
    while rest.len() > 0
        invariant
            rest@.len() <= all.len(),
            rest@ == all.subrange(all.len() - rest@.len(), all.len() as int),
            sorted_newest_first(out@),
            out@.to_multiset().add(rest@.to_multiset()) == all.to_multiset(),
        decreases rest@.len(),
    {
        let ghost old_out = out@;
        let ghost old_rest = rest@;
        let entry = rest.remove(0);
        proof {
            assert(rest@ =~= all.subrange(all.len() - old_rest.len() + 1, all.len() as int));
            assert(old_rest =~= old_rest.drop_first().insert(0, entry));
        }
        let mut pos: usize = 0;
        while pos < out.len() && out[pos].updated_at >= entry.updated_at
            invariant
                pos <= out@.len(),
                out@ == old_out,
                forall|k: int| 0 <= k < pos ==> (#[trigger] out@[k]).updated_at >= entry.updated_at,
            decreases out@.len() - pos,
        {
            pos = pos + 1;
        }
        out.insert(pos, entry);
        proof {
            let newv = old_out.insert(pos as int, entry);
            assert forall|a: int, b: int| 0 <= a < b < newv.len() implies newv[a].updated_at
                >= newv[b].updated_at by {
                if b < pos {
                    assert(newv[a] == old_out[a] && newv[b] == old_out[b]);
                } else if a < pos && b == pos {
                    assert(newv[a] == old_out[a]);
                } else if a == pos && b > pos {
                    assert(newv[b] == old_out[b - 1]);
                    assert(old_out[pos as int].updated_at >= old_out[b - 1].updated_at);
                } else if a < pos && b > pos {
                    assert(newv[a] == old_out[a] && newv[b] == old_out[b - 1]);
                } else {
                    assert(newv[a] == old_out[a - 1] && newv[b] == old_out[b - 1]);
                }
            }
        }
    }
    proof {
        assert(rest@.to_multiset() =~= Multiset::<ArchiveEntry>::empty());
        assert(out@.to_multiset() =~= all.to_multiset());
    }
    out
}

/// Order entries by modification time, oldest first; a permutation of the
/// input, ties in either order.
pub fn sort_oldest_first(entries: Vec<ArchiveEntry>) -> (r: Vec<ArchiveEntry>)
    ensures
        sorted_oldest_first(r@),
        r@.to_multiset() == entries@.to_multiset(),
{
    let ghost all = entries@;
    let mut rest = entries;
    let mut out: Vec<ArchiveEntry> = Vec::new();
    while rest.len() > 0
        invariant
            rest@.len() <= all.len(),
            rest@ == all.subrange(all.len() - rest@.len(), all.len() as int),
            sorted_oldest_first(out@),
            out@.to_multiset().add(rest@.to_multiset()) == all.to_multiset(),
        decreases rest@.len(),
    {
        let ghost old_out = out@;
        let ghost old_rest = rest@;
        let entry = rest.remove(0);
        proof {
            assert(rest@ =~= all.subrange(all.len() - old_rest.len() + 1, all.len() as int));
            assert(old_rest =~= old_rest.drop_first().insert(0, entry));
        }
        let mut pos: usize = 0;
        while pos < out.len() && out[pos].updated_at <= entry.updated_at
            invariant
                pos <= out@.len(),
                out@ == old_out,
                forall|k: int| 0 <= k < pos ==> (#[trigger] out@[k]).updated_at <= entry.updated_at,
            decreases out@.len() - pos,
        {
            pos = pos + 1;
        }
        out.insert(pos, entry);
        proof {
            let newv = old_out.insert(pos as int, entry);
            assert forall|a: int, b: int| 0 <= a < b < newv.len() implies newv[a].updated_at
                <= newv[b].updated_at by {
                if b < pos {
                    assert(newv[a] == old_out[a] && newv[b] == old_out[b]);
                } else if a < pos && b == pos {
                    assert(newv[a] == old_out[a]);
                } else if a == pos && b > pos {
                    assert(newv[b] == old_out[b - 1]);
                    assert(old_out[pos as int].updated_at <= old_out[b - 1].updated_at);
                } else if a < pos && b > pos {
                    assert(newv[a] == old_out[a] && newv[b] == old_out[b - 1]);
                } else {
                    assert(newv[a] == old_out[a - 1] && newv[b] == old_out[b - 1]);
                }
            }
        }
    }
    proof {
        assert(rest@.to_multiset() =~= Multiset::<ArchiveEntry>::empty());
        assert(out@.to_multiset() =~= all.to_multiset());
    }
    out
}

} // verus!
