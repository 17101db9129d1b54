//! Accounting for a bulk deletion.

use vstd::prelude::*;

verus! {

/// How many of the removals succeeded.
pub open spec fn removed_count(removed: Seq<bool>) -> nat
    decreases removed.len(),
{
    if removed.len() == 0 {
        0
    } else if removed.last() {
        removed_count(removed.drop_last()) + 1
    } else {
        removed_count(removed.drop_last())
    }
}

proof fn lemma_removed_count_grows(removed: Seq<bool>, n: int)
    requires
        0 <= n <= removed.len(),
    ensures
        removed_count(removed.take(n)) <= removed_count(removed),
    decreases removed.len() - n,
{
    if n == removed.len() {
        assert(removed.take(n) =~= removed);
    } else {
        lemma_removed_count_grows(removed, n + 1);
        assert(removed.take(n + 1).drop_last() =~= removed.take(n));
    }
}

/// Counts the files that were deleted, given for each path whether its removal
/// succeeded. A failed removal is not counted and stops nothing.
pub fn count_deleted(removed: &Vec<bool>) -> (deleted: u32)
    requires
        removed_count(removed@) <= u32::MAX,
    ensures
        deleted == removed_count(removed@),
{
    let mut deleted: u32 = 0;
    let mut i: usize = 0;
    assert(removed@.take(0) =~= Seq::<bool>::empty());
    while i < removed.len()
        invariant
            i <= removed.len(),
            removed_count(removed@) <= u32::MAX,
            deleted == removed_count(removed@.take(i as int)),
        decreases removed.len() - i,
    {
        proof {
            assert(removed@.take(i + 1).drop_last() =~= removed@.take(i as int));
            lemma_removed_count_grows(removed@, i + 1);
        }
        if removed[i] {
            deleted += 1;
        }
        i += 1;
    }
    assert(removed@.take(i as int) =~= removed@);
    deleted
}

} // verus!
