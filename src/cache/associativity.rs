//! Strided walk over a flat buffer: strides that share factors with the number
//! of cache sets keep landing in the same few sets, others spread out.
use crate::cache::matrix::{lemma_row_sum_update, row_sum};
use vstd::prelude::*;

verus! {

/// Number of increments that one walk performs.
pub const STEP_COUNT: usize = 1000000;

/// Index that the walk with stride `step` over `n` cells visits at step `k`.
pub open spec fn stride_index(step: nat, n: nat, k: nat) -> nat
    decreases k,
{
    if k == 0 {
        0
    } else {
        (stride_index(step, n, (k - 1) as nat) + step) % n
    }
}

/// How many of the first `k` steps visit cell `x`.
pub open spec fn visits(step: nat, n: nat, k: nat, x: int) -> nat
    decreases k,
{
    if k == 0 {
        0
    } else {
        visits(step, n, (k - 1) as nat, x) + if stride_index(step, n, (k - 1) as nat) == x {
            1nat
        } else {
            0nat
        }
    }
}

/// Visits of the first `k` steps to the cells below `m`, added up.
pub open spec fn total_visits(step: nat, n: nat, k: nat, m: nat) -> nat
    decreases m,
{
    if m == 0 {
        0
    } else {
        total_visits(step, n, k, (m - 1) as nat) + visits(step, n, k, m - 1)
    }
}

/// Every index of the walk lies in `[0, n)`.
pub proof fn lemma_stride_index_in_range(step: nat, n: nat, k: nat)
    requires
        n > 0,
    ensures
        stride_index(step, n, k) < n,
{
    if k > 0 {
        assert((stride_index(step, n, (k - 1) as nat) + step) % n < n);
    }
}

/// No cell is visited more often than there are steps.
proof fn lemma_visits_bounded(step: nat, n: nat, k: nat, x: int)
    ensures
        visits(step, n, k, x) <= k,
    decreases k,
{
    if k > 0 {
        lemma_visits_bounded(step, n, (k - 1) as nat, x);
    }
}

/// One more step adds one visit to the cells below `m` exactly when it lands
/// below `m`.
proof fn lemma_total_visits_step(step: nat, n: nat, k: nat, m: nat)
    ensures
        total_visits(step, n, k + 1, m) == total_visits(step, n, k, m) + if stride_index(
            step,
            n,
            k,
        ) < m {
            1nat
        } else {
            0nat
        },
    decreases m,
{
    if m > 0 {
        lemma_total_visits_step(step, n, k, (m - 1) as nat);
    }
}

/// A walk of `k` steps over `n` cells with a stride in `[1, n)` makes exactly
/// `k` visits in all, each at an index in `[0, n)`.
pub proof fn lemma_walk_visits(step: nat, n: nat, k: nat)
    requires
        1 <= step < n,
    ensures
        total_visits(step, n, k, n) == k,
        forall|j: nat| j < k ==> #[trigger] stride_index(step, n, j) < n,
    decreases k,
{
    assert forall|j: nat| j < k implies #[trigger] stride_index(step, n, j) < n by {
        lemma_stride_index_in_range(step, n, j);
    }
    if k == 0 {
        lemma_total_visits_zero(step, n, n);
    } else {
        lemma_walk_visits(step, n, (k - 1) as nat);
        lemma_total_visits_step(step, n, (k - 1) as nat, n);
        lemma_stride_index_in_range(step, n, (k - 1) as nat);
    }
}

/// Before the first step no cell has been visited.
proof fn lemma_total_visits_zero(step: nat, n: nat, m: nat)
    ensures
        total_visits(step, n, 0, m) == 0,
    decreases m,
{
    if m > 0 {
        lemma_total_visits_zero(step, n, (m - 1) as nat);
    }
}

/// Starting at index 0, adds one to the current cell and moves `step` cells on,
/// wrapping round the end, `STEP_COUNT` times: the buffer's sum grows by exactly
/// `STEP_COUNT`.
pub fn iter_with_step(arr: &mut Vec<usize>, step: usize)
    requires
        1 <= step < old(arr)@.len(),
        old(arr)@.len() <= isize::MAX,
        forall|x: int| 0 <= x < old(arr)@.len() ==> #[trigger] old(arr)@[x] + STEP_COUNT <= usize::MAX,
    ensures
        final(arr)@.len() == old(arr)@.len(),
        forall|x: int|
            0 <= x < old(arr)@.len() ==> #[trigger] final(arr)@[x] == old(arr)@[x] + visits(
                step as nat,
                old(arr)@.len(),
                STEP_COUNT as nat,
                x,
            ),
        row_sum(final(arr)@) == row_sum(old(arr)@) + STEP_COUNT,
{
    let ghost a0 = arr@;
    let n = arr.len();
    let mut i: usize = 0;
    let mut k: usize = 0;
    while k < STEP_COUNT
        invariant
            n == arr@.len(),
            n == a0.len(),
            1 <= step < n,
            n <= isize::MAX,
            0 <= k <= STEP_COUNT,
            i == stride_index(step as nat, n as nat, k as nat),
            i < n,
            row_sum(arr@) == row_sum(a0) + k,
            forall|x: int| 0 <= x < n ==> #[trigger] a0[x] + STEP_COUNT <= usize::MAX,
            forall|x: int|
                0 <= x < n ==> #[trigger] arr@[x] == a0[x] + visits(
                    step as nat,
                    n as nat,
                    k as nat,
                    x,
                ),
        decreases STEP_COUNT - k,
    {
        proof {
            lemma_visits_bounded(step as nat, n as nat, k as nat, i as int);
        }
        let v = arr[i] + 1;
        let ghost before = arr@;
        arr.set(i, v);
        proof {
            lemma_row_sum_update(before, i as int, v);
        }
        proof {
            assert forall|x: int| 0 <= x < n implies #[trigger] arr@[x] == a0[x] + visits(
                step as nat,
                n as nat,
                (k + 1) as nat,
                x,
            ) by {}
        }
        i = (i + step) % n;
        k = k + 1;
    }
}

} // verus!
