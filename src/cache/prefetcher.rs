//! Traversals that keep the hardware prefetcher from settling on a pattern:
//! the row-major and column-major walks draw and discard one random value per
//! row, and the random walk picks each updated cell at random.
use crate::cache::basic::{
    add_column_indices_to_row, add_index_down_column, after_row_major, fits_row_major,
};
use crate::cache::matrix::{add_to_cell, cells, is_square_matrix, lemma_row_sum_update, row_sum};
use vstd::prelude::*;

verus! {

/// Relies on `rand::random`: a `usize` drawn from the thread-local generator.
/// Any value may come back.
#[verifier::external_body]
fn draw_index() -> usize {
    rand::random()
}

/// Relies on `std::hint::black_box`: the optimiser must treat `v` as used.
#[verifier::external_body]
fn keep_opaque(v: usize) {
    std::hint::black_box(v);
}

/// Row-major traversal that draws a random value before each row and hands it
/// to `std::hint::black_box`; the value never reaches the matrix.
pub fn row_major_traversal(arr: &mut Vec<Vec<usize>>)
    requires
        is_square_matrix(old(arr)@),
        fits_row_major(old(arr)@),
    ensures
        final(arr)@.len() == old(arr)@.len(),
        is_square_matrix(final(arr)@),
        cells(final(arr)@) == after_row_major(cells(old(arr)@)),
{
    let ghost m0 = arr@;
    let n = arr.len();
    let mut i: usize = 0;
    while i < n
        invariant
            n == arr@.len(),
            n == m0.len(),
            0 <= i <= n,
            is_square_matrix(m0),
            fits_row_major(m0),
            is_square_matrix(arr@),
            forall|r: int, c: int|
                0 <= r < i && 0 <= c < n ==> #[trigger] arr@[r]@[c] == m0[r]@[c] + c,
            forall|r: int| i <= r < n ==> #[trigger] arr@[r] == m0[r],
        decreases n - i,
    {
        let ri = draw_index();
        keep_opaque(ri);
        assert(arr@[i as int] == m0[i as int]);
        add_column_indices_to_row(arr, i);
        i = i + 1;
    }
    assert(cells(arr@) =~~= after_row_major(cells(m0)));
}

/// Column-major traversal that draws a random value before each column and
/// hands it to `std::hint::black_box`; the value never reaches the matrix,
/// which ends as after a row-major traversal.
pub fn column_major_traversal(arr: &mut Vec<Vec<usize>>)
    requires
        is_square_matrix(old(arr)@),
        fits_row_major(old(arr)@),
    ensures
        final(arr)@.len() == old(arr)@.len(),
        is_square_matrix(final(arr)@),
        cells(final(arr)@) == after_row_major(cells(old(arr)@)),
{
    let ghost m0 = arr@;
    let n = arr.len();
    let mut i: usize = 0;
    while i < n
        invariant
            n == arr@.len(),
            n == m0.len(),
            0 <= i <= n,
            is_square_matrix(m0),
            fits_row_major(m0),
            is_square_matrix(arr@),
            forall|r: int, c: int|
                0 <= r < n && 0 <= c < n ==> #[trigger] arr@[r]@[c] == if c < i {
                    m0[r]@[c] + c
                } else {
                    m0[r]@[c] as int
                },
        decreases n - i,
    {
        let ri = draw_index();
        keep_opaque(ri);
        add_index_down_column(arr, i);
        i = i + 1;
    }
    assert(cells(arr@) =~~= after_row_major(cells(m0)));
}

/// Adds `j` to the cell of row `j` in the column that `draw` picks, taken
/// modulo the dimension.
pub fn random_access_step(arr: &mut Vec<Vec<usize>>, j: usize, draw: usize)
    requires
        is_square_matrix(old(arr)@),
        j < old(arr)@.len(),
        old(arr)@[j as int]@[(draw as int % old(arr)@.len() as int)] + j <= usize::MAX,
    ensures
        final(arr)@.len() == old(arr)@.len(),
        is_square_matrix(final(arr)@),
        forall|r: int| 0 <= r < old(arr)@.len() && r != j ==> #[trigger] final(arr)@[r] == old(arr)@[r],
        final(arr)@[j as int]@ == old(arr)@[j as int]@.update(
            (draw as int % old(arr)@.len() as int),
            (old(arr)@[j as int]@[(draw as int % old(arr)@.len() as int)] + j) as usize,
        ),
{
    let n = arr.len();
    add_to_cell(arr, j, draw % n, j);
}

/// Additions that row `r` has had once `i` full passes and the first `j` rows
/// of the next pass are done.
pub open spec fn additions(i: int, j: int, r: int) -> int {
    i + if r < j {
        1int
    } else {
        0int
    }
}

/// For each pass `i` and each row `j`, adds `j` to a cell of row `j` picked at
/// random. Whatever the draws, each row `r` gains `n * r` in all, spread over
/// its cells.
pub fn random_access(arr: &mut Vec<Vec<usize>>)
    requires
        is_square_matrix(old(arr)@),
        forall|r: int, c: int|
            0 <= r < old(arr)@.len() && 0 <= c < old(arr)@.len() ==> #[trigger] old(arr)@[r]@[c] + old(
                arr,
            )@.len() * r <= usize::MAX,
    ensures
        final(arr)@.len() == old(arr)@.len(),
        is_square_matrix(final(arr)@),
        forall|r: int|
            0 <= r < old(arr)@.len() ==> #[trigger] row_sum(final(arr)@[r]@) == row_sum(
                old(arr)@[r]@,
            ) + old(arr)@.len() * r,
        forall|r: int, c: int|
            0 <= r < old(arr)@.len() && 0 <= c < old(arr)@.len() ==> old(arr)@[r]@[c]
                <= #[trigger] final(arr)@[r]@[c] <= old(arr)@[r]@[c] + old(arr)@.len() * r,
{
    let ghost m0 = arr@;
    let n = arr.len();
    let mut i: usize = 0;
    while i < n
        invariant
            n == arr@.len(),
            n == m0.len(),
            0 <= i <= n,
            is_square_matrix(m0),
            is_square_matrix(arr@),
            forall|r: int, c: int|
                0 <= r < n && 0 <= c < n ==> #[trigger] m0[r]@[c] + n * r <= usize::MAX,
            forall|r: int|
                0 <= r < n ==> #[trigger] row_sum(arr@[r]@) == row_sum(m0[r]@) + i * r,
            forall|r: int, c: int|
                0 <= r < n && 0 <= c < n ==> m0[r]@[c] <= #[trigger] arr@[r]@[c] <= m0[r]@[c] + i
                    * r,
        decreases n - i,
    {
        let mut j: usize = 0;
        while j < n
            invariant
                n == arr@.len(),
                n == m0.len(),
                0 <= i < n,
                0 <= j <= n,
                is_square_matrix(m0),
                is_square_matrix(arr@),
                forall|r: int, c: int|
                    0 <= r < n && 0 <= c < n ==> #[trigger] m0[r]@[c] + n * r <= usize::MAX,
                forall|r: int|
                    0 <= r < n ==> #[trigger] row_sum(arr@[r]@) == row_sum(m0[r]@) + additions(
                        i as int,
                        j as int,
                        r,
                    ) * r,
                forall|r: int, c: int|
                    0 <= r < n && 0 <= c < n ==> m0[r]@[c] <= #[trigger] arr@[r]@[c] <= m0[r]@[c]
                        + additions(i as int, j as int, r) * r,
            decreases n - j,
        {
            let draw = draw_index();
            let ghost d = (draw % n) as int;
            let ghost before = arr@;
            proof {
                assert(additions(i as int, j as int, j as int) == i);
                assert((i + 1) * j <= n * j) by (nonlinear_arith)
                    requires
                        i + 1 <= n,
                ;
                assert((i + 1) * j == i * j + j) by (nonlinear_arith);
                assert(m0[j as int]@[d] + n * j <= usize::MAX);
                assert(arr@[j as int]@[d] <= m0[j as int]@[d] + i * j);
            }
            random_access_step(arr, j, draw);
            proof {
                lemma_row_sum_update(before[j as int]@, d, arr@[j as int]@[d]);
                assert forall|r: int|
                    0 <= r < n implies #[trigger] row_sum(arr@[r]@) == row_sum(m0[r]@) + additions(
                    i as int,
                    j + 1,
                    r,
                ) * r by {
                    if r == j {
                        assert(additions(i as int, j + 1, r) == i + 1);
                    } else {
                        assert(additions(i as int, j + 1, r) == additions(i as int, j as int, r));
                    }
                }
                assert forall|r: int, c: int| 0 <= r < n && 0 <= c < n implies m0[r]@[c]
                    <= #[trigger] arr@[r]@[c] <= m0[r]@[c] + additions(i as int, j + 1, r) * r by {
                    if r == j {
                        assert(additions(i as int, j + 1, r) == i + 1);
                        assert(i * r <= (i + 1) * r) by (nonlinear_arith)
                            requires
                                r >= 0,
                        ;
                    } else {
                        assert(additions(i as int, j + 1, r) == additions(i as int, j as int, r));
                    }
                }
            }
            j = j + 1;
        }
        proof {
            assert forall|r: int| 0 <= r < n implies additions(i as int, n as int, r) == i + 1 by {}
            assert forall|r: int| 0 <= r < n implies #[trigger] row_sum(arr@[r]@) == row_sum(m0[r]@)
                + (i + 1) * r by {
                assert(additions(i as int, n as int, r) == i + 1);
            }
            assert forall|r: int, c: int| 0 <= r < n && 0 <= c < n implies m0[r]@[c]
                <= #[trigger] arr@[r]@[c] <= m0[r]@[c] + (i + 1) * r by {
                assert(additions(i as int, n as int, r) == i + 1);
            }
        }
        i = i + 1;
    }
}

} // verus!
