//! Renumbering of waypoint indices once some path entries are removed.

use vstd::prelude::*;

verus! {

/// How many entries of `removed` lie strictly below `idx`.
pub open spec fn count_below(removed: Seq<usize>, idx: int) -> nat
    decreases removed.len(),
{
    if removed.len() == 0 {
        0
    } else {
        count_below(removed.drop_last(), idx) + (if (removed.last() as int) < idx {
            1nat
        } else {
            0nat
        })
    }
}

/// The index `idx` takes once every entry listed in `removed` that lies
/// below it has been taken out.
pub open spec fn spec_fix_scope(idx: int, removed: Seq<usize>) -> int {
    idx - count_below(removed, idx)
}

/// Every entry is smaller than the ones after it.
pub open spec fn strictly_increasing(s: Seq<usize>) -> bool {
    forall|i: int, j: int| 0 <= i < j < s.len() ==> s[i] < s[j]
}

/// Maps the index `idx` of an entry of the full path to its index in the
/// path from which the entries at `removed_idxs` were taken out.
pub fn fix_scope(idx: usize, removed_idxs: &Vec<usize>) -> (fixed: usize)
    requires
        count_below(removed_idxs@, idx as int) <= idx,
    ensures
        fixed == spec_fix_scope(idx as int, removed_idxs@),
{
    let mut to_subtract: usize = 0;
    let mut k: usize = 0;
    while k < removed_idxs.len()
        invariant
            k <= removed_idxs.len(),
            to_subtract == count_below(removed_idxs@.take(k as int), idx as int),
            to_subtract <= k,
        decreases removed_idxs.len() - k,
    {
        if removed_idxs[k] < idx {
            to_subtract += 1;
        }
        assert(removed_idxs@.take(k + 1).drop_last() =~= removed_idxs@.take(k as int));
        k += 1;
    }
    assert(removed_idxs@.take(k as int) =~= removed_idxs@);
    idx - to_subtract
}

/// `count_below` never exceeds the length of the list.
pub proof fn lemma_count_below_le_len(s: Seq<usize>, x: int)
    ensures
        count_below(s, x) <= s.len(),
    decreases s.len(),
{
    if s.len() > 0 {
        lemma_count_below_le_len(s.drop_last(), x);
    }
}

/// When every entry lies below `x`, all of them count.
pub proof fn lemma_count_below_all(s: Seq<usize>, x: int)
    requires
        forall|i: int| 0 <= i < s.len() ==> (s[i] as int) < x,
    ensures
        count_below(s, x) == s.len(),
    decreases s.len(),
{
    if s.len() > 0 {
        lemma_count_below_all(s.drop_last(), x);
    }
}

/// When no entry lies below `x`, none counts.
pub proof fn lemma_count_below_none(s: Seq<usize>, x: int)
    requires
        forall|i: int| 0 <= i < s.len() ==> x <= (s[i] as int),
    ensures
        count_below(s, x) == 0,
    decreases s.len(),
{
    if s.len() > 0 {
        lemma_count_below_none(s.drop_last(), x);
    }
}

/// Appending entries at or above `x` does not change what counts below `x`.
pub proof fn lemma_count_below_append_high(s: Seq<usize>, t: Seq<usize>, x: int)
    requires
        forall|i: int| 0 <= i < t.len() ==> x <= (t[i] as int),
    ensures
        count_below(s + t, x) == count_below(s, x),
    decreases t.len(),
{
    if t.len() > 0 {
        assert((s + t).drop_last() =~= s + t.drop_last());
        lemma_count_below_append_high(s, t.drop_last(), x);
    } else {
        assert(s + t =~= s);
    }
}

/// How many entries of `s` equal `v`.
pub open spec fn count_equal(s: Seq<usize>, v: int) -> nat
    decreases s.len(),
{
    if s.len() == 0 {
        0
    } else {
        count_equal(s.drop_last(), v) + (if s.last() as int == v {
            1nat
        } else {
            0nat
        })
    }
}

/// Moving the bound up by one adds the entries equal to the old bound.
pub proof fn lemma_count_below_step(s: Seq<usize>, v: int)
    ensures
        count_below(s, v + 1) == count_below(s, v) + count_equal(s, v),
    decreases s.len(),
{
    if s.len() > 0 {
        lemma_count_below_step(s.drop_last(), v);
    }
}

/// In a list without duplicates, a value occurs at most once.
pub proof fn lemma_count_equal_no_duplicates(s: Seq<usize>, v: int)
    requires
        s.no_duplicates(),
    ensures
        count_equal(s, v) <= 1,
    decreases s.len(),
{
    if s.len() > 0 {
        let t = s.drop_last();
        assert(t.no_duplicates());
        lemma_count_equal_no_duplicates(t, v);
        if s.last() as int == v {
            lemma_count_equal_absent(t, v);
        }
    }
}

/// A value that no entry equals occurs zero times.
pub proof fn lemma_count_equal_absent(s: Seq<usize>, v: int)
    requires
        forall|i: int| 0 <= i < s.len() ==> s[i] as int != v,
    ensures
        count_equal(s, v) == 0,
    decreases s.len(),
{
    if s.len() > 0 {
        lemma_count_equal_absent(s.drop_last(), v);
    }
}

/// Between `x` and `y`, a list without duplicates has at most `y - x`
/// entries.
pub proof fn lemma_count_below_diff(s: Seq<usize>, x: int, y: int)
    requires
        s.no_duplicates(),
        x <= y,
    ensures
        count_below(s, x) <= count_below(s, y),
        count_below(s, y) - count_below(s, x) <= y - x,
    decreases y - x,
{
    if x < y {
        lemma_count_below_diff(s, x, y - 1);
        lemma_count_below_step(s, y - 1);
        lemma_count_equal_no_duplicates(s, y - 1);
    }
}

/// A strictly increasing list has no duplicates.
pub proof fn lemma_strictly_increasing_no_duplicates(s: Seq<usize>)
    requires
        strictly_increasing(s),
    ensures
        s.no_duplicates(),
{
    assert forall|i: int, j: int| 0 <= i < s.len() && 0 <= j < s.len() && i != j implies s[i]
        != s[j] by {
        if i < j {
            assert(s[i] < s[j]);
        } else {
            assert(s[j] < s[i]);
        }
    }
}

/// A list of indices without duplicates has at most `x` entries below `x`,
/// so `fix_scope` can always be applied to it.
pub proof fn lemma_count_below_bounded(s: Seq<usize>, x: int)
    requires
        s.no_duplicates(),
        0 <= x,
    ensures
        count_below(s, x) <= x,
{
    lemma_count_below_none(s, 0);
    lemma_count_below_diff(s, 0, x);
}

/// `fix_scope` moves an index down and never below zero.
pub proof fn lemma_fix_scope_bounds(idx: int, removed: Seq<usize>)
    requires
        0 <= idx,
        count_below(removed, idx) <= idx,
    ensures
        0 <= spec_fix_scope(idx, removed) <= idx,
        spec_fix_scope(idx, removed) >= idx - removed.len(),
{
    lemma_count_below_le_len(removed, idx);
}

/// With nothing removed, `fix_scope` leaves every index as it is.
pub proof fn lemma_fix_scope_nothing_removed(idx: int)
    ensures
        spec_fix_scope(idx, Seq::<usize>::empty()) == idx,
{
}

/// Over a list of removed indices without duplicates, `fix_scope` keeps
/// the order of indices: a later entry of the path never gets a smaller
/// index than an earlier one.
pub proof fn lemma_fix_scope_monotonic(removed: Seq<usize>, i: int, j: int)
    requires
        removed.no_duplicates(),
        i <= j,
    ensures
        spec_fix_scope(i, removed) <= spec_fix_scope(j, removed),
{
    lemma_count_below_diff(removed, i, j);
}

} // verus!
