//! Sequence helpers the state model is written over: sums of count tables
//! and removal of the last occurrence of a value.

use vstd::prelude::*;

verus! {

/// The sum of all entries of a count table.
pub open spec fn sum_counts(s: Seq<usize>) -> int
    decreases s.len(),
{
    if s.len() == 0 {
        0
    } else {
        sum_counts(s.drop_last()) + s.last()
    }
}

/// A sum of counts is never negative.
pub proof fn lemma_sum_counts_nonneg(s: Seq<usize>)
    ensures
        sum_counts(s) >= 0,
    decreases s.len(),
{
    if s.len() > 0 {
        lemma_sum_counts_nonneg(s.drop_last());
    }
}

/// Updating one entry moves the sum by the difference at that entry.
pub proof fn lemma_sum_counts_update(s: Seq<usize>, i: int, v: usize)
    requires
        0 <= i < s.len(),
    ensures
        sum_counts(s.update(i, v)) == sum_counts(s) - s[i] + v,
    decreases s.len(),
{
    if i == s.len() - 1 {
        assert(s.update(i, v).drop_last() =~= s.drop_last());
    } else {
        assert(s.update(i, v).drop_last() =~= s.drop_last().update(i, v));
        assert(s.update(i, v).last() == s.last());
        lemma_sum_counts_update(s.drop_last(), i, v);
    }
}

/// Each entry is at most the sum of all entries.
pub proof fn lemma_entry_le_sum(s: Seq<usize>, i: int)
    requires
        0 <= i < s.len(),
    ensures
        s[i] <= sum_counts(s),
    decreases s.len(),
{
    if i == s.len() - 1 {
        lemma_sum_counts_nonneg(s.drop_last());
    } else {
        lemma_entry_le_sum(s.drop_last(), i);
    }
}

/// Extending a prefix by one entry adds that entry to its sum.
pub proof fn lemma_sum_take_succ(s: Seq<usize>, k: int)
    requires
        0 <= k < s.len(),
    ensures
        sum_counts(s.take(k + 1)) == sum_counts(s.take(k)) + s[k],
{
    assert(s.take(k + 1).drop_last() =~= s.take(k));
}

/// A prefix sum is at most the whole sum.
pub proof fn lemma_sum_take_le(s: Seq<usize>, k: int)
    requires
        0 <= k <= s.len(),
    ensures
        sum_counts(s.take(k)) <= sum_counts(s),
    decreases s.len() - k,
{
    if k == s.len() {
        assert(s.take(k) =~= s);
    } else {
        lemma_sum_take_succ(s, k);
        lemma_sum_take_le(s, k + 1);
    }
}

/// The sequence with the last occurrence of `x` removed; `s` itself
/// when `x` does not occur.
pub open spec fn remove_last_match<T>(s: Seq<T>, x: T) -> Seq<T>
    decreases s.len(),
{
    if s.len() == 0 {
        s
    } else if s.last() == x {
        s.drop_last()
    } else {
        remove_last_match(s.drop_last(), x).push(s.last())
    }
}

/// Removing the value just appended undoes the append.
pub proof fn lemma_remove_last_match_push<T>(s: Seq<T>, x: T)
    ensures
        remove_last_match(s.push(x), x) == s,
{
    assert(s.push(x).last() == x);
    assert(s.push(x).drop_last() =~= s);
}

/// When `x` occurs at `j` and nowhere later, removing the last occurrence
/// removes exactly position `j`.
pub proof fn lemma_remove_last_match_at<T>(s: Seq<T>, x: T, j: int)
    requires
        0 <= j < s.len(),
        s[j] == x,
        forall|k: int| j < k < s.len() ==> s[k] != x,
    ensures
        remove_last_match(s, x) == s.remove(j),
    decreases s.len(),
{
    if j == s.len() - 1 {
        assert(s.remove(j) =~= s.drop_last());
    } else {
        assert(s.last() != x);
        lemma_remove_last_match_at(s.drop_last(), x, j);
        assert(s.remove(j) =~= s.drop_last().remove(j).push(s.last()));
    }
}

} // verus!
