//! The candidate grouper: sorts the discovered records by size, then by
//! creation time, so that files of equal size become contiguous and the
//! marker can scan each same-size run in one pass.
use vstd::multiset::Multiset;
use vstd::prelude::*;

use crate::record::{key_le, record_le, FileRecord, RecordModel};

verus! {

/// The records of a live vector, as their mathematical shadows.
pub open spec fn models(v: Seq<FileRecord>) -> Seq<RecordModel> {
    v.map_values(|r: FileRecord| r@)
}

/// Sorted by the grouping order: size ascending, creation time as tie-break.
pub open spec fn sorted_by_key(s: Seq<RecordModel>) -> bool {
    forall|i: int, j: int| 0 <= i < j < s.len() ==> key_le(#[trigger] s[i], #[trigger] s[j])
}

/// Sizes are ascending; all the marker itself needs.
pub open spec fn sorted_by_size(s: Seq<RecordModel>) -> bool {
    forall|i: int, j: int|
        0 <= i < j < s.len() ==> (#[trigger] s[i]).size <= (#[trigger] s[j]).size
}

/// The grouping order sorts sizes in particular.
pub proof fn lemma_key_sorted_implies_size_sorted(s: Seq<RecordModel>)
    requires
        sorted_by_key(s),
    ensures
        sorted_by_size(s),
{
    assert forall|i: int, j: int| 0 <= i < j < s.len() implies (#[trigger] s[i]).size
        <= (#[trigger] s[j]).size by {
        assert(key_le(s[i], s[j]));
    }
}

/// Two sequences with the same multiset have the same members: every record
/// of one occurs somewhere in the other.
pub proof fn lemma_same_multiset_same_members(a: Seq<RecordModel>, b: Seq<RecordModel>, j: int)
    requires
        a.to_multiset() == b.to_multiset(),
        0 <= j < b.len(),
    ensures
        exists|i: int| 0 <= i < a.len() && a[i] == b[j],
{
    broadcast use vstd::seq_lib::group_to_multiset_ensures;

    assert(b.contains(b[j]));
    assert(b.to_multiset().count(b[j]) > 0);
    assert(a.to_multiset().count(b[j]) > 0);
    assert(a.contains(b[j]));
    let i = choose|i: int| 0 <= i < a.len() && a[i] == b[j];
    assert(0 <= i < a.len() && a[i] == b[j]);
}

/// Sorts the discovered records by `(size, creation time)` ascending.  The
/// result holds exactly the records given, reordered; records of equal size
/// and creation time may come out in either order.
pub fn order(records: Vec<FileRecord>) -> (r: Vec<FileRecord>)
    ensures
        sorted_by_key(models(r@)),
        sorted_by_size(models(r@)),
        models(r@).to_multiset() == models(records@).to_multiset(),
        r@.len() == records@.len(),
{
    broadcast use vstd::seq_lib::group_to_multiset_ensures;
    broadcast use vstd::seq_lib::to_multiset_insert;
    broadcast use vstd::multiset::group_multiset_axioms;

    let ghost all = models(records@);
    let mut input = records;
    let mut out: Vec<FileRecord> = Vec::new();
    while input.len() > 0
        invariant
            sorted_by_key(models(out@)),
            models(out@).to_multiset().add(models(input@).to_multiset()) == all.to_multiset(),
            out@.len() + input@.len() == all.len(),
        decreases input.len(),
    {
        let ghost in_before = models(input@);
        let rec = match input.pop() {
            Some(rec) => rec,
            None => {
                // the loop condition rules this out
                proof {
                    assert(false);
                }
                return out;
            },
        };
        proof {
            assert(in_before =~= models(input@).push(rec@));
            vstd::seq_lib::to_multiset_build::<RecordModel>(models(input@), rec@);
            assert(in_before.to_multiset() == models(input@).to_multiset().insert(rec@));
        }
        let mut i: usize = 0;
        while i < out.len() && record_le(&out[i], &rec)
            invariant
                i <= out@.len(),
                forall|k: int| 0 <= k < i ==> key_le(#[trigger] models(out@)[k], rec@),
            decreases out@.len() - i,
        {
            i += 1;
        }
        let ghost out_before = models(out@);
        out.insert(i, rec);
        proof {
            let now = models(out@);
            assert(now =~= out_before.insert(i as int, rec@));
            vstd::seq_lib::to_multiset_insert::<RecordModel>(out_before, i as int, rec@);
            assert(now.to_multiset() == out_before.to_multiset().insert(rec@));
            assert forall|a: int, b: int| 0 <= a < b < now.len() implies key_le(
                #[trigger] now[a],
                #[trigger] now[b],
            ) by {
                if b < i {
                    assert(now[a] == out_before[a] && now[b] == out_before[b]);
                } else if b == i {
                    assert(now[b] == rec@ && now[a] == out_before[a]);
                } else {
                    assert(now[b] == out_before[b - 1]);
                    if a < i {
                        assert(now[a] == out_before[a]);
                        if i < out_before.len() {
                            assert(key_le(out_before[a], out_before[b - 1]) || a == b - 1);
                        }
                    } else if a == i {
                        assert(now[a] == rec@);
                        assert(i < out_before.len());
                        assert(!key_le(out_before[i as int], rec@));
                        assert(key_le(rec@, out_before[i as int]));
                        assert(key_le(out_before[i as int], out_before[b - 1]) || i == b - 1);
                    } else {
                        assert(now[a] == out_before[a - 1]);
                    }
                }
            }
            assert(out@.len() + input@.len() == all.len());
            assert(models(out@).to_multiset().add(models(input@).to_multiset())
                =~= all.to_multiset());
        }
    }
    proof {
        assert(models(input@).to_multiset() =~= Multiset::<RecordModel>::empty());
        assert(models(out@).to_multiset() == all.to_multiset());
        lemma_key_sorted_implies_size_sorted(models(out@));
    }
    out
}

} // verus!
