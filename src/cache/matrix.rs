//! A square matrix held as a vector of rows, and the cell update that every
//! traversal is made of.
use vstd::prelude::*;

verus! {

/// The rows of a matrix, each as a sequence of cells.
pub open spec fn cells(m: Seq<Vec<usize>>) -> Seq<Seq<usize>> {
    m.map_values(|r: Vec<usize>| r@)
}

/// Every row is as long as there are rows.
pub open spec fn is_square_matrix(m: Seq<Vec<usize>>) -> bool {
    forall|i: int| 0 <= i < m.len() ==> #[trigger] m[i]@.len() == m.len()
}

/// The matrix of dimension `n` with every cell zero.
pub open spec fn zero_grid(n: nat) -> Seq<Seq<usize>> {
    Seq::new(n, |i: int| Seq::new(n, |j: int| 0usize))
}

/// Sum of the cells of a row, or of any buffer.
pub open spec fn row_sum(s: Seq<usize>) -> int
    decreases s.len(),
{
    if s.len() == 0 {
        0
    } else {
        row_sum(s.drop_last()) + s.last()
    }
}

/// Changing one cell changes the row's sum by the difference.
pub proof fn lemma_row_sum_update(s: Seq<usize>, k: int, v: usize)
    requires
        0 <= k < s.len(),
    ensures
        row_sum(s.update(k, v)) == row_sum(s) - s[k] + v,
    decreases s.len(),
{
    let t = s.update(k, v);
    if k == s.len() - 1 {
        assert(t.drop_last() =~= s.drop_last());
    } else {
        assert(t.drop_last() =~= s.drop_last().update(k, v));
        lemma_row_sum_update(s.drop_last(), k, v);
    }
}

/// Tells whether every row of `arr` is as long as there are rows.
pub fn is_square(arr: &Vec<Vec<usize>>) -> (r: bool)
    ensures
        r == is_square_matrix(arr@),
{
    let n = arr.len();
    let mut i: usize = 0;
    while i < n
        invariant
            n == arr@.len(),
            0 <= i <= n,
            forall|k: int| 0 <= k < i ==> #[trigger] arr@[k]@.len() == n,
        decreases n - i,
    {
        if arr[i].len() != n {
            return false;
        }
        i = i + 1;
    }
    true
}

/// Adds `d` to the cell in row `r` and column `c`.
pub fn add_to_cell(arr: &mut Vec<Vec<usize>>, r: usize, c: usize, d: usize)
    requires
        r < old(arr)@.len(),
        c < old(arr)@[r as int]@.len(),
        old(arr)@[r as int]@[c as int] + d <= usize::MAX,
    ensures
        final(arr)@.len() == old(arr)@.len(),
        forall|i: int| 0 <= i < old(arr)@.len() && i != r ==> #[trigger] final(arr)@[i] == old(arr)@[i],
        final(arr)@[r as int]@ == old(arr)@[r as int]@.update(
            c as int,
            (old(arr)@[r as int]@[c as int] + d) as usize,
        ),
{
    let v = arr[r][c] + d;
    arr[r][c] = v;
}

} // verus!
