//! Most-recent-first ordering of measurements, as the query operation
//! returns them: a stable insertion sort by descending timestamp, specified
//! by a recursive spec function and proved to produce a sorted permutation
//! of its input.

use vstd::prelude::*;
use vstd::seq_lib::group_seq_properties;

use crate::data::Measurement;

verus! {

/// `m` inserted into `s` before every strictly older entry at the tail and
/// after everything else; on a seq sorted most-recent-first this keeps it
/// sorted and places `m` after entries with the same stamp (stability).
pub open spec fn insert_desc(s: Seq<Measurement>, m: Measurement) -> Seq<Measurement>
    decreases s.len(),
{
    if s.len() > 0 && s.last().timestamp < m.timestamp {
        insert_desc(s.drop_last(), m).push(s.last())
    } else {
        s.push(m)
    }
}

/// `s` rearranged most-recent-first by repeated [`insert_desc`], keeping the
/// input order among equal timestamps.
pub open spec fn sort_desc(s: Seq<Measurement>) -> Seq<Measurement>
    decreases s.len(),
{
    if s.len() == 0 {
        Seq::empty()
    } else {
        insert_desc(sort_desc(s.drop_last()), s.last())
    }
}

/// Timestamps never increase along `s` (most recent first).
pub open spec fn sorted_desc(s: Seq<Measurement>) -> bool {
    forall|i: int, j: int| 0 <= i <= j < s.len() ==> s[i].timestamp >= s[j].timestamp
}

/// Timestamps never decrease along `s` (insertion order under a
/// non-decreasing clock).
pub open spec fn ts_nondecreasing(s: Seq<Measurement>) -> bool {
    forall|i: int, j: int| 0 <= i <= j < s.len() ==> s[i].timestamp <= s[j].timestamp
}

/// [`insert_desc`] drops `m` at the position an insertion-point scan from
/// the back finds: everything from `j` on is strictly older than `m`, and
/// the entry before `j` (if any) is at least as recent.
proof fn lemma_insert_desc_at(s: Seq<Measurement>, m: Measurement, j: int)
    requires
        0 <= j <= s.len(),
        forall|k: int| j <= k < s.len() ==> (#[trigger] s[k]).timestamp < m.timestamp,
        j > 0 ==> s[j - 1].timestamp >= m.timestamp,
    ensures
        insert_desc(s, m) == s.insert(j, m),
    decreases s.len(),
{
    if s.len() > 0 && s.last().timestamp < m.timestamp {
        assert(j < s.len());
        lemma_insert_desc_at(s.drop_last(), m, j);
        assert(insert_desc(s, m) =~= s.insert(j, m));
    } else {
        assert(j == s.len());
        assert(insert_desc(s, m) =~= s.insert(j, m));
    }
}

/// Inserting into a most-recent-first seq keeps it most-recent-first.
proof fn lemma_insert_desc_sorted(s: Seq<Measurement>, m: Measurement)
    requires
        sorted_desc(s),
    ensures
        sorted_desc(insert_desc(s, m)),
    decreases s.len(),
{
    if s.len() > 0 && s.last().timestamp < m.timestamp {
        assert(sorted_desc(s.drop_last()));
        lemma_insert_desc_sorted(s.drop_last(), m);
        let t = insert_desc(s.drop_last(), m);
        assert forall|i: int, j: int|
            0 <= i <= j < t.push(s.last()).len() implies t.push(s.last())[i].timestamp >= t.push(
            s.last(),
        )[j].timestamp by {
            if j < t.len() {
            } else {
                // the appended entry is older than m and than every entry of s
                if i < t.len() {
                    lemma_insert_desc_members(s.drop_last(), m, i);
                }
            }
        }
    } else {
        assert forall|i: int, j: int|
            0 <= i <= j < s.push(m).len() implies s.push(m)[i].timestamp >= s.push(
            m,
        )[j].timestamp by {
            if j == s.len() && i < s.len() {
                assert(s[i].timestamp >= s.last().timestamp);
            }
        }
    }
}

/// Every entry of [`insert_desc`]`(s, m)` is `m` or an entry of `s` at least
/// as recent as the tail entries that moved past it.
proof fn lemma_insert_desc_members(s: Seq<Measurement>, m: Measurement, i: int)
    requires
        sorted_desc(s),
        0 <= i < insert_desc(s, m).len(),
    ensures
        insert_desc(s, m)[i].timestamp >= m.timestamp || exists|k: int|
            0 <= k < s.len() && insert_desc(s, m)[i] == s[k],
    decreases s.len(),
{
    if s.len() > 0 && s.last().timestamp < m.timestamp {
        if i < insert_desc(s.drop_last(), m).len() {
            lemma_insert_desc_members(s.drop_last(), m, i);
            if exists|k: int|
                0 <= k < s.drop_last().len() && insert_desc(s.drop_last(), m)[i] == s.drop_last()[
                k] {
                let k = choose|k: int|
                    0 <= k < s.drop_last().len() && insert_desc(s.drop_last(), m)[i]
                        == s.drop_last()[k];
                assert(insert_desc(s, m)[i] == s[k]);
            }
        } else {
            assert(insert_desc(s, m)[i] == s.last());
        }
    } else {
        if i < s.len() {
            assert(insert_desc(s, m)[i] == s[i]);
        }
    }
}

/// [`sort_desc`] really sorts: its result is most-recent-first.
pub proof fn lemma_sort_desc_sorted(s: Seq<Measurement>)
    ensures
        sorted_desc(sort_desc(s)),
    decreases s.len(),
{
    if s.len() > 0 {
        lemma_sort_desc_sorted(s.drop_last());
        lemma_insert_desc_sorted(sort_desc(s.drop_last()), s.last());
    }
}

/// [`insert_desc`] only rearranges: the result holds the entries of `s`
/// plus `m`, as a multiset.
proof fn lemma_insert_desc_multiset(s: Seq<Measurement>, m: Measurement)
    ensures
        insert_desc(s, m).to_multiset() == s.push(m).to_multiset(),
        insert_desc(s, m).len() == s.len() + 1,
    decreases s.len(),
{
    broadcast use group_seq_properties;

    if s.len() > 0 && s.last().timestamp < m.timestamp {
        lemma_insert_desc_multiset(s.drop_last(), m);
        assert(s.drop_last().push(m).to_multiset() =~= s.drop_last().to_multiset().insert(m));
        assert(insert_desc(s.drop_last(), m).push(s.last()).to_multiset() =~= insert_desc(
            s.drop_last(),
            m,
        ).to_multiset().insert(s.last()));
        assert(s.push(m).to_multiset() =~= s.to_multiset().insert(m));
        assert(s =~= s.drop_last().push(s.last()));
        assert(s.to_multiset() =~= s.drop_last().to_multiset().insert(s.last()));
        assert(insert_desc(s, m).to_multiset() =~= s.push(m).to_multiset());
    }
}

/// [`sort_desc`] only rearranges: the result is a permutation of `s`, of the
/// same length.
pub proof fn lemma_sort_desc_permutes(s: Seq<Measurement>)
    ensures
        sort_desc(s).to_multiset() == s.to_multiset(),
        sort_desc(s).len() == s.len(),
    decreases s.len(),
{
    broadcast use group_seq_properties;

    if s.len() > 0 {
        lemma_sort_desc_permutes(s.drop_last());
        lemma_insert_desc_multiset(sort_desc(s.drop_last()), s.last());
        assert(sort_desc(s.drop_last()).push(s.last()).to_multiset() =~= sort_desc(
            s.drop_last(),
        ).to_multiset().insert(s.last()));
        assert(s =~= s.drop_last().push(s.last()));
        assert(s.to_multiset() =~= s.drop_last().to_multiset().insert(s.last()));
    }
}

/// A copy of `ms` rearranged most-recent-first, per [`sort_desc`].
pub fn sorted_desc_copy(ms: &Vec<Measurement>) -> (r: Vec<Measurement>)
    ensures
        r@ == sort_desc(ms@),
{
    let mut out: Vec<Measurement> = Vec::new();
    let n = ms.len();
    let mut i: usize = 0;
    proof {
        assert(ms@.take(0) =~= Seq::<Measurement>::empty());
    }
    while i < n
        invariant
            n == ms@.len(),
            i <= n,
            out@ == sort_desc(ms@.take(i as int)),
        decreases n - i,
    {
        let m = ms[i];
        let mut j: usize = out.len();
        while j > 0 && out[j - 1].timestamp < m.timestamp
            invariant
                j <= out@.len(),
                forall|k: int| j <= k < out@.len() ==> (#[trigger] out@[k]).timestamp < m.timestamp,
            decreases j,
        {
            j -= 1;
        }
        proof {
            lemma_insert_desc_at(out@, m, j as int);
        }
        out.insert(j, m);
        proof {
            assert(ms@.take(i + 1).drop_last() =~= ms@.take(i as int));
            assert(ms@.take(i + 1).last() == m);
        }
        i += 1;
    }
    proof {
        assert(ms@.take(n as int) =~= ms@);
    }
    out
}

} // verus!
