//! Ordering and permutation notions shared by the sorting strategies and the
//! verification pass: non-descending segments, adjacent-pair order, and
//! multiset (element-preservation) facts about in-place updates.

use vstd::prelude::*;

verus! {

use vstd::seq_lib::{
    lemma_multiset_commutative, to_multiset_contains, to_multiset_insert, to_multiset_remove,
    to_multiset_update,
};

/// The segment `[lo, hi)` of `s` is in non-descending order.
pub open spec fn sorted_between(s: Seq<u32>, lo: int, hi: int) -> bool {
    forall|p: int, q: int| lo <= p <= q < hi ==> s[p] <= s[q]
}

/// The whole sequence is in non-descending order.
pub open spec fn sorted(s: Seq<u32>) -> bool {
    sorted_between(s, 0, s.len() as int)
}

/// The adjacent pair at `k` is in non-descending order.
pub open spec fn ordered_at(s: Seq<u32>, k: int) -> bool {
    s[k] <= s[k + 1]
}

/// `s` with the values at `i` and `j` exchanged.
pub open spec fn swapped(s: Seq<u32>, i: int, j: int) -> Seq<u32> {
    s.update(i, s[j]).update(j, s[i])
}

/// A chain of ordered adjacent pairs orders every pair of the segment.
pub proof fn lemma_adjacent_ordered_implies_sorted(s: Seq<u32>, lo: int, hi: int)
    requires
        0 <= lo,
        hi <= s.len(),
        forall|k: int| lo <= k < hi - 1 ==> #[trigger] ordered_at(s, k),
    ensures
        sorted_between(s, lo, hi),
{
    assert forall|p: int, q: int| lo <= p <= q < hi implies s[p] <= s[q] by {
        lemma_chain_le(s, p, q);
    }
}

/// Walks the chain `s[p] <= s[p+1] <= ... <= s[q]`.
proof fn lemma_chain_le(s: Seq<u32>, p: int, q: int)
    requires
        0 <= p <= q < s.len(),
        forall|k: int| p <= k < q ==> #[trigger] ordered_at(s, k),
    ensures
        s[p] <= s[q],
    decreases q - p,
{
    if p < q {
        lemma_chain_le(s, p, q - 1);
        assert(ordered_at(s, q - 1));
    }
}

/// A sorted sequence has every adjacent pair ordered, and conversely.
pub proof fn lemma_sorted_iff_adjacent_ordered(s: Seq<u32>)
    ensures
        sorted(s) <==> (forall|k: int| 0 <= k < s.len() - 1 ==> #[trigger] ordered_at(s, k)),
{
    if forall|k: int| 0 <= k < s.len() - 1 ==> #[trigger] ordered_at(s, k) {
        lemma_adjacent_ordered_implies_sorted(s, 0, s.len() as int);
    }
}

/// Exchanging two positions does not change which values the sequence holds.
pub proof fn lemma_swap_preserves_multiset(s: Seq<u32>, i: int, j: int)
    requires
        0 <= i < s.len(),
        0 <= j < s.len(),
    ensures
        swapped(s, i, j).to_multiset() == s.to_multiset(),
{
    broadcast use to_multiset_update;
    broadcast use to_multiset_contains;

    let s1 = s.update(i, s[j]);
    assert(s.contains(s[i]));
    assert(s.to_multiset().count(s[i]) > 0);
    if i == j {
        assert(swapped(s, i, j) =~= s);
    } else {
        assert(s1[j] == s[j]);
        assert(s1.to_multiset() == s.to_multiset().insert(s[j]).remove(s[i]));
        assert(swapped(s, i, j).to_multiset() == s1.to_multiset().insert(s[i]).remove(s1[j]));
        assert(swapped(s, i, j).to_multiset() =~= s.to_multiset());
    }
}

/// Removing the value at `from` and re-inserting it at `to` keeps the multiset.
pub proof fn lemma_rotation_preserves_multiset(s: Seq<u32>, to: int, from: int)
    requires
        0 <= to <= from < s.len(),
    ensures
        s.remove(from).insert(to, s[from]).to_multiset() == s.to_multiset(),
{
    broadcast use to_multiset_remove;
    broadcast use to_multiset_insert;
    broadcast use to_multiset_contains;

    assert(s.contains(s[from]));
    assert(s.to_multiset().count(s[from]) > 0);
    assert(s.remove(from).insert(to, s[from]).to_multiset() =~= s.to_multiset());
}

/// Two same-length sequences that agree outside `[lo, hi)` and hold the same
/// values overall also hold the same values inside `[lo, hi)`.
pub proof fn lemma_agreeing_frames_share_segment_multiset(s1: Seq<u32>, s2: Seq<u32>, lo: int, hi: int)
    requires
        s1.len() == s2.len(),
        0 <= lo <= hi <= s1.len(),
        s1.to_multiset() == s2.to_multiset(),
        forall|k: int| 0 <= k < s1.len() && !(lo <= k < hi) ==> s1[k] == s2[k],
    ensures
        s1.subrange(lo, hi).to_multiset() == s2.subrange(lo, hi).to_multiset(),
{
    let n = s1.len() as int;
    let a1 = s1.subrange(0, lo);
    let b1 = s1.subrange(lo, hi);
    let c1 = s1.subrange(hi, n);
    let a2 = s2.subrange(0, lo);
    let b2 = s2.subrange(lo, hi);
    let c2 = s2.subrange(hi, n);
    assert(a1 =~= a2);
    assert(c1 =~= c2);
    assert(s1 =~= a1 + b1 + c1);
    assert(s2 =~= a2 + b2 + c2);
    lemma_multiset_commutative(a1 + b1, c1);
    lemma_multiset_commutative(a1, b1);
    lemma_multiset_commutative(a2 + b2, c2);
    lemma_multiset_commutative(a2, b2);
    assert(a1.to_multiset().add(b1.to_multiset()).add(c1.to_multiset()) == a2.to_multiset().add(
        b2.to_multiset(),
    ).add(c2.to_multiset()));
    assert forall|x: u32| #[trigger] b1.to_multiset().count(x) == b2.to_multiset().count(x) by {
        assert(a1.to_multiset().add(b1.to_multiset()).add(c1.to_multiset()).count(x)
            == a2.to_multiset().add(b2.to_multiset()).add(c2.to_multiset()).count(x));
    }
    assert(b1.to_multiset() =~= b2.to_multiset());
}

/// A value bound satisfied by every element of a sequence is satisfied by
/// every element of any rearrangement of it.
pub proof fn lemma_multiset_preserves_upper_bound(s1: Seq<u32>, s2: Seq<u32>, bound: u32)
    requires
        s1.to_multiset() == s2.to_multiset(),
        forall|k: int| 0 <= k < s1.len() ==> s1[k] <= bound,
    ensures
        forall|k: int| 0 <= k < s2.len() ==> s2[k] <= bound,
{
    broadcast use to_multiset_contains;

    assert forall|k: int| 0 <= k < s2.len() implies s2[k] <= bound by {
        assert(s2.contains(s2[k]));
        assert(s2.to_multiset().count(s2[k]) > 0);
        assert(s1.contains(s2[k]));
        let m = choose|m: int| 0 <= m < s1.len() && s1[m] == s2[k];
        assert(s1[m] <= bound);
    }
}

/// A value bound satisfied by every element of a sequence is satisfied by
/// every element of any rearrangement of it.
pub proof fn lemma_multiset_preserves_lower_bound(s1: Seq<u32>, s2: Seq<u32>, bound: u32)
    requires
        s1.to_multiset() == s2.to_multiset(),
        forall|k: int| 0 <= k < s1.len() ==> s1[k] >= bound,
    ensures
        forall|k: int| 0 <= k < s2.len() ==> s2[k] >= bound,
{
    broadcast use to_multiset_contains;

    assert forall|k: int| 0 <= k < s2.len() implies s2[k] >= bound by {
        assert(s2.contains(s2[k]));
        assert(s2.to_multiset().count(s2[k]) > 0);
        assert(s1.contains(s2[k]));
        let m = choose|m: int| 0 <= m < s1.len() && s1[m] == s2[k];
        assert(s1[m] >= bound);
    }
}

} // verus!
