//! Row-major and column-major traversal of a square matrix: the first walks
//! memory in order, the second jumps a whole row between neighbouring updates.
use crate::cache::matrix::{add_to_cell, cells, is_square_matrix, zero_grid};
use vstd::prelude::*;

verus! {

/// The cells after a traversal in either order: each cell gains its column
/// index.
pub open spec fn after_row_major(g: Seq<Seq<usize>>) -> Seq<Seq<usize>> {
    Seq::new(g.len(), |i: int| Seq::new(g[i].len(), |j: int| (g[i][j] + j) as usize))
}

/// No cell overflows when it gains its column index.
pub open spec fn fits_row_major(m: Seq<Vec<usize>>) -> bool {
    forall|i: int, j: int|
        0 <= i < m.len() && 0 <= j < m[i]@.len() ==> #[trigger] m[i]@[j] + j <= usize::MAX
}

/// Adds to each cell of row `i` its column index.
pub fn add_column_indices_to_row(arr: &mut Vec<Vec<usize>>, i: usize)
    requires
        i < old(arr)@.len(),
        forall|c: int|
            0 <= c < old(arr)@[i as int]@.len() ==> #[trigger] old(arr)@[i as int]@[c] + c
                <= usize::MAX,
    ensures
        final(arr)@.len() == old(arr)@.len(),
        forall|r: int| 0 <= r < old(arr)@.len() && r != i ==> #[trigger] final(arr)@[r] == old(arr)@[r],
        final(arr)@[i as int]@ == Seq::new(
            old(arr)@[i as int]@.len(),
            |c: int| (old(arr)@[i as int]@[c] + c) as usize,
        ),
{
    let ghost m0 = arr@;
    let len = arr[i].len();
    let mut j: usize = 0;
    while j < len
        invariant
            arr@.len() == m0.len(),
            i < m0.len(),
            len == m0[i as int]@.len(),
            len == arr@[i as int]@.len(),
            0 <= j <= len,
            forall|c: int| 0 <= c < len ==> #[trigger] m0[i as int]@[c] + c <= usize::MAX,
            forall|r: int| 0 <= r < m0.len() && r != i ==> #[trigger] arr@[r] == m0[r],
            forall|c: int| 0 <= c < j ==> #[trigger] arr@[i as int]@[c] == m0[i as int]@[c] + c,
            forall|c: int| j <= c < len ==> #[trigger] arr@[i as int]@[c] == m0[i as int]@[c],
        decreases len - j,
    {
        assert(m0[i as int]@[j as int] + j <= usize::MAX);
        add_to_cell(arr, i, j, j);
        j = j + 1;
    }
    assert(arr@[i as int]@ =~= Seq::new(len as nat, |c: int| (m0[i as int]@[c] + c) as usize));
}

/// Walks down column `c`, adding `c` to each of its cells.
pub fn add_index_down_column(arr: &mut Vec<Vec<usize>>, c: usize)
    requires
        is_square_matrix(old(arr)@),
        c < old(arr)@.len(),
        forall|r: int| 0 <= r < old(arr)@.len() ==> #[trigger] old(arr)@[r]@[c as int] + c <= usize::MAX,
    ensures
        final(arr)@.len() == old(arr)@.len(),
        is_square_matrix(final(arr)@),
        forall|r: int, k: int|
            0 <= r < old(arr)@.len() && 0 <= k < old(arr)@.len() ==> #[trigger] final(arr)@[r]@[k]
                == if k == c {
                old(arr)@[r]@[k] + c
            } else {
                old(arr)@[r]@[k] as int
            },
{
    let ghost m0 = arr@;
    let n = arr.len();
    let mut j: usize = 0;
    while j < n
        invariant
            n == arr@.len(),
            n == m0.len(),
            c < n,
            0 <= j <= n,
            is_square_matrix(m0),
            is_square_matrix(arr@),
            forall|r: int| 0 <= r < n ==> #[trigger] m0[r]@[c as int] + c <= usize::MAX,
            forall|r: int, k: int|
                0 <= r < n && 0 <= k < n ==> #[trigger] arr@[r]@[k] == if k == c && r < j {
                    m0[r]@[k] + c
                } else {
                    m0[r]@[k] as int
                },
        decreases n - j,
    {
        assert(m0[j as int]@[c as int] + c <= usize::MAX);
        add_to_cell(arr, j, c, c);
        j = j + 1;
    }
}

/// For each row `i` and each column `j`, adds `j` to `arr[i][j]`.
pub fn row_major_traversal(arr: &mut Vec<Vec<usize>>)
    requires
        is_square_matrix(old(arr)@),
        fits_row_major(old(arr)@),
    ensures
        final(arr)@.len() == old(arr)@.len(),
        is_square_matrix(final(arr)@),
        cells(final(arr)@) == after_row_major(cells(old(arr)@)),
{
    let ghost m0 = arr@;
    let n = arr.len();
    let mut i: usize = 0;
    while i < n
        invariant
            n == arr@.len(),
            n == m0.len(),
            0 <= i <= n,
            is_square_matrix(m0),
            fits_row_major(m0),
            is_square_matrix(arr@),
            forall|r: int, c: int|
                0 <= r < i && 0 <= c < n ==> #[trigger] arr@[r]@[c] == m0[r]@[c] + c,
            forall|r: int| i <= r < n ==> #[trigger] arr@[r] == m0[r],
        decreases n - i,
    {
        assert(arr@[i as int] == m0[i as int]);
        add_column_indices_to_row(arr, i);
        i = i + 1;
    }
    assert(cells(arr@) =~~= after_row_major(cells(m0)));
}

/// For each column `i` and each row `j`, adds `i` to `arr[j][i]`: the same
/// result as the row-major traversal, reached column by column.
pub fn column_major_traversal(arr: &mut Vec<Vec<usize>>)
    requires
        is_square_matrix(old(arr)@),
        fits_row_major(old(arr)@),
    ensures
        final(arr)@.len() == old(arr)@.len(),
        is_square_matrix(final(arr)@),
        cells(final(arr)@) == after_row_major(cells(old(arr)@)),
{
    let ghost m0 = arr@;
    let n = arr.len();
    let mut i: usize = 0;
    while i < n
        invariant
            n == arr@.len(),
            n == m0.len(),
            0 <= i <= n,
            is_square_matrix(m0),
            fits_row_major(m0),
            is_square_matrix(arr@),
            forall|r: int, c: int|
                0 <= r < n && 0 <= c < n ==> #[trigger] arr@[r]@[c] == if c < i {
                    m0[r]@[c] + c
                } else {
                    m0[r]@[c] as int
                },
        decreases n - i,
    {
        add_index_down_column(arr, i);
        i = i + 1;
    }
    assert(cells(arr@) =~~= after_row_major(cells(m0)));
}

/// On a zero matrix of dimension `n`, a traversal in either order leaves each
/// cell equal to its column index.
pub proof fn lemma_traversal_of_zero_matrix(n: nat)
    requires
        n <= usize::MAX,
    ensures
        forall|i: int, j: int|
            0 <= i < n && 0 <= j < n ==> #[trigger] after_row_major(zero_grid(n))[i][j] == j,
{
    let z = zero_grid(n);
    assert forall|i: int, j: int| 0 <= i < n && 0 <= j < n implies #[trigger] after_row_major(
        z,
    )[i][j] == j by {
        assert(z[i][j] == 0);
    }
}

} // verus!
