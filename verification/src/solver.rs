//! Partial pivoting for the dense elimination that solves the panel system.
//!
//! Elimination works column by column. In column `k` it takes as pivot the
//! entry of largest magnitude on or below the diagonal, and gives up where
//! even that one is too small to divide by. The arithmetic on the rows is
//! the caller's; which row to pivot on is decided here, and the entries are
//! moved here.
//!
//! A matrix of `n` rows and `n` columns is held row by row in one vector of
//! `n * n` entries.

use vstd::prelude::*;
use crate::single::Single;

verus! {

/// A pivot of smaller magnitude than this makes the system singular: 1e-10.
pub const PIVOT_MIN_BITS: u32 = 0x2edb_e6ff;

/// The smallest number of panels a system is set up for.
pub const MIN_PANELS: usize = 4;

/// Whether a loop has too few panels for a system to be set up: fewer than
/// four.
pub fn is_degenerate(panel_count: usize) -> (r: bool)
    ensures
        r == (panel_count < MIN_PANELS),
{
    panel_count < MIN_PANELS
}

/// Whether the solver has returned a strength for every unknown: one
/// source strength per panel and the circulation. A solver that gave up
/// returns none.
pub fn is_complete(panel_count: usize, strength_count: usize) -> (r: bool)
    ensures
        r == (strength_count == panel_count + 1),
{
    strength_count > 0 && strength_count - 1 == panel_count
}

/// The number of entries of the matrix of a system of `n` unknowns, or
/// `None` where that many cannot be addressed.
pub fn matrix_len(n: usize) -> (len: Option<usize>)
    ensures
        len == if n * n <= usize::MAX { Some((n * n) as usize) } else { None },
{
    n.checked_mul(n)
}

/// Entry `(row, col)` of a matrix with `n` columns.
pub open spec fn entry<T>(matrix: Seq<T>, n: int, row: int, col: int) -> T {
    matrix[row * n + col]
}

proof fn lemma_flat_index(n: int, row: int, col: int)
    requires
        0 <= row < n,
        0 <= col < n,
    ensures
        0 <= row * n + col < n * n,
        0 <= row * n <= n * n - n,
{
    assert(0 <= row * n <= (n - 1) * n) by (nonlinear_arith)
        requires
            0 <= row <= n - 1,
            n >= 0,
    ;
    assert((n - 1) * n == n * n - n) by (nonlinear_arith);
}

/// Two places of a matrix are one place only if row and column agree.
proof fn lemma_flat_index_injective(n: int, r1: int, c1: int, r2: int, c2: int)
    requires
        0 <= r1 < n,
        0 <= c1 < n,
        0 <= r2 < n,
        0 <= c2 < n,
        r1 * n + c1 == r2 * n + c2,
    ensures
        r1 == r2,
        c1 == c2,
{
    if r1 < r2 {
        assert(r2 * n >= (r1 + 1) * n) by (nonlinear_arith)
            requires
                r2 >= r1 + 1,
                n >= 0,
        ;
        assert((r1 + 1) * n == r1 * n + n) by (nonlinear_arith);
    } else if r2 < r1 {
        assert(r1 * n >= (r2 + 1) * n) by (nonlinear_arith)
            requires
                r1 >= r2 + 1,
                n >= 0,
        ;
        assert((r2 + 1) * n == r2 * n + n) by (nonlinear_arith);
    }
}

/// Column `k` of a matrix, one entry per row.
pub fn matrix_column<T: Copy>(matrix: &Vec<T>, n: usize, k: usize) -> (col: Vec<T>)
    requires
        matrix.len() == n * n,
        k < n,
    ensures
        col.len() == n,
        forall|row: int| 0 <= row < n ==> #[trigger] col[row] == entry(matrix@, n as int, row, k as int),
{
    let mut col: Vec<T> = Vec::new();
    let mut row: usize = 0;
    while row < n
        invariant
            matrix.len() == n * n,
            k < n,
            row <= n,
            col.len() == row,
            forall|r: int| 0 <= r < row ==> #[trigger] col[r] == entry(matrix@, n as int, r, k as int),
        decreases n - row,
    {
        proof {
            lemma_flat_index(n as int, row as int, k as int);
        }
        col.push(matrix[row * n + k]);
        row = row + 1;
    }
    col
}

/// The row that stands in place `row` once rows `r1` and `r2` have changed
/// places.
pub open spec fn swapped(row: int, r1: int, r2: int) -> int {
    if row == r1 {
        r2
    } else if row == r2 {
        r1
    } else {
        row
    }
}

/// Exchanges two rows of a matrix and leaves the others as they are.
pub fn swap_rows<T: Copy>(matrix: &mut Vec<T>, n: usize, r1: usize, r2: usize)
    requires
        old(matrix).len() == n * n,
        r1 < n,
        r2 < n,
    ensures
        final(matrix).len() == old(matrix).len(),
        forall|row: int, col: int|
            0 <= row < n && 0 <= col < n ==> #[trigger] entry(final(matrix)@, n as int, row, col)
                == entry(old(matrix)@, n as int, swapped(row, r1 as int, r2 as int), col),
{
    if r1 == r2 {
        return ;
    }
    let ghost before = matrix@;
    let mut c: usize = 0;
    while c < n
        invariant
            matrix.len() == n * n,
            before.len() == n * n,
            r1 < n,
            r2 < n,
            r1 != r2,
            c <= n,
            forall|row: int, col: int|
                0 <= row < n && 0 <= col < c ==> #[trigger] entry(matrix@, n as int, row, col)
                    == entry(before, n as int, swapped(row, r1 as int, r2 as int), col),
            forall|row: int, col: int|
                0 <= row < n && c <= col < n ==> #[trigger] entry(matrix@, n as int, row, col)
                    == entry(before, n as int, row, col),
        decreases n - c,
    {
        proof {
            lemma_flat_index(n as int, r1 as int, c as int);
            lemma_flat_index(n as int, r2 as int, c as int);
        }
        let ghost prev = matrix@;
        let i: usize = r1 * n + c;
        let j: usize = r2 * n + c;
        let a: T = matrix[i];
        let b: T = matrix[j];
        matrix[i] = b;
        matrix[j] = a;
        proof {
            assert forall|row: int, col: int| 0 <= row < n && 0 <= col < n implies #[trigger] entry(
                matrix@,
                n as int,
                row,
                col,
            ) == if col == c && row == r1 {
                entry(prev, n as int, r2 as int, c as int)
            } else if col == c && row == r2 {
                entry(prev, n as int, r1 as int, c as int)
            } else {
                entry(prev, n as int, row, col)
            } by {
                lemma_flat_index(n as int, row, col);
                if row * n + col == i {
                    lemma_flat_index_injective(n as int, row, col, r1 as int, c as int);
                }
                if row * n + col == j {
                    lemma_flat_index_injective(n as int, row, col, r2 as int, c as int);
                }
            }
        }
        c = c + 1;
    }
}

/// Whether row `r` is the pivot row of a column in elimination step `k`: the
/// first row from `k` on whose entry has the largest magnitude, entries that
/// are not numbers left aside. A diagonal entry that is not a number is its
/// own pivot.
pub open spec fn is_pivot_row(column: Seq<Single>, k: int, r: int) -> bool {
    &&& 0 <= k <= r < column.len()
    &&& if column[k].is_nan() {
        r == k
    } else {
        &&& !column[r].is_nan()
        &&& forall|i: int|
            k <= i < column.len() && !(#[trigger] column[i]).is_nan() ==> column[i].magnitude()
                <= column[r].magnitude()
        &&& forall|i: int|
            k <= i < r && !(#[trigger] column[i]).is_nan() ==> column[i].magnitude()
                < column[r].magnitude()
    }
}

/// Whether an entry is too small to pivot on.
pub open spec fn too_small(entry: Single) -> bool {
    entry.abs_spec().less(Single { bits: PIVOT_MIN_BITS })
}

/// The row to pivot on in step `k`, given column `k` of the matrix (one
/// entry per row), or `None` where the system is singular: where the pivot
/// row's entry is smaller in magnitude than 1e-10, or where there is no row
/// `k`.
pub fn select_pivot(column: &Vec<Single>, k: usize) -> (row: Option<usize>)
    ensures
        match row {
            Some(r) => is_pivot_row(column@, k as int, r as int) && !too_small(column[r as int]),
            None => k >= column.len() || exists|r: int|
                is_pivot_row(column@, k as int, r) && too_small(column[r]),
        },
{
    let n: usize = column.len();
    if k >= n {
        return None;
    }
    let mut pivot_row: usize = k;
    let mut pivot_val: Single = column[k].abs();
    let mut i: usize = k + 1;
    while i < n
        invariant
            n == column.len(),
            k < i <= n,
            k <= pivot_row < i,
            pivot_val == column[pivot_row as int].abs_spec(),
            column[k as int].is_nan() ==> pivot_row == k,
            !column[k as int].is_nan() ==> {
                &&& !column[pivot_row as int].is_nan()
                &&& forall|j: int|
                    k <= j < i && !(#[trigger] column[j]).is_nan() ==> column[j].magnitude()
                        <= column[pivot_row as int].magnitude()
                &&& forall|j: int|
                    k <= j < pivot_row && !(#[trigger] column[j]).is_nan() ==> column[j].magnitude()
                        < column[pivot_row as int].magnitude()
            },
        decreases n - i,
    {
        let val: Single = column[i].abs();
        if pivot_val.lt(val) {
            pivot_val = val;
            pivot_row = i;
        }
        i = i + 1;
    }
    assert(is_pivot_row(column@, k as int, pivot_row as int));
    if pivot_val.lt(Single { bits: PIVOT_MIN_BITS }) {
        None
    } else {
        Some(pivot_row)
    }
}

/// A column has one pivot row and no other.
pub proof fn lemma_pivot_row_unique(column: Seq<Single>, k: int, r1: int, r2: int)
    requires
        is_pivot_row(column, k, r1),
        is_pivot_row(column, k, r2),
    ensures
        r1 == r2,
{
    if !column[k].is_nan() {
        if r1 < r2 {
            assert(column[r1].magnitude() < column[r2].magnitude());
            assert(column[r2].magnitude() <= column[r1].magnitude());
        } else if r2 < r1 {
            assert(column[r2].magnitude() < column[r1].magnitude());
            assert(column[r1].magnitude() <= column[r2].magnitude());
        }
    }
}

} // verus!
