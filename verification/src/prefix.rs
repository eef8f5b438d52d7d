//! Sums over the first numbers of a sequence.

use vstd::prelude::*;

verus! {

/// The sum of the first `n` numbers of `lens`.
pub open spec fn prefix_sum(lens: Seq<nat>, n: int) -> nat
    decreases n,
{
    if n <= 0 {
        0
    } else {
        prefix_sum(lens, n - 1) + lens[n - 1]
    }
}

/// Prefix sums depend only on the numbers they add.
pub proof fn lemma_prefix_sum_agrees(a: Seq<nat>, b: Seq<nat>, n: int)
    requires
        forall|j: int| 0 <= j < n ==> a[j] == b[j],
    ensures
        prefix_sum(a, n) == prefix_sum(b, n),
    decreases n,
{
    if n > 0 {
        lemma_prefix_sum_agrees(a, b, n - 1);
    }
}

/// Changing one number shifts every prefix sum that includes it by the
/// difference.
pub proof fn lemma_prefix_sum_update(a: Seq<nat>, b: Seq<nat>, i: int, n: int)
    requires
        0 <= i,
        forall|j: int| 0 <= j < n && j != i ==> a[j] == b[j],
    ensures
        n > i ==> prefix_sum(b, n) + a[i] == prefix_sum(a, n) + b[i],
        n <= i ==> prefix_sum(b, n) == prefix_sum(a, n),
    decreases n,
{
    if n > 0 {
        lemma_prefix_sum_update(a, b, i, n - 1);
    }
}

/// Prefix sums grow with the prefix.
pub proof fn lemma_prefix_sum_monotone(a: Seq<nat>, m: int, n: int)
    requires
        m <= n,
    ensures
        prefix_sum(a, m) <= prefix_sum(a, n),
    decreases n - m,
{
    if m < n {
        lemma_prefix_sum_monotone(a, m, n - 1);
    }
}

/// A prefix sum is at least each number it adds.
pub proof fn lemma_prefix_sum_covers(a: Seq<nat>, i: int, n: int)
    requires
        0 <= i < n,
    ensures
        a[i] <= prefix_sum(a, n),
    decreases n,
{
    if i < n - 1 {
        lemma_prefix_sum_covers(a, i, n - 1);
    }
}

/// Zeros add up to zero.
pub proof fn lemma_prefix_sum_zero(a: Seq<nat>, n: int)
    requires
        forall|j: int| 0 <= j < n ==> a[j] == 0,
    ensures
        prefix_sum(a, n) == 0,
    decreases n,
{
    if n > 0 {
        lemma_prefix_sum_zero(a, n - 1);
    }
}

} // verus!
