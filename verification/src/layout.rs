//! The row-major layout of a Jacobian block, as a mathematical model.
//!
//! A block for a parameter of `cols` components and `rows` residuals is a flat
//! sequence of `rows * cols` values; row `r` occupies the positions
//! `r * cols .. (r + 1) * cols`.

use vstd::prelude::*;

verus! {

/// Number of values in the flat buffer of a block.
pub open spec fn flat_len(parameter_size: int, num_residuals: int) -> int {
    num_residuals * parameter_size
}

/// Row `r` of a flat buffer whose rows have `cols` values each.
pub open spec fn row_of<T>(flat: Seq<T>, cols: int, r: int) -> Seq<T> {
    flat.subrange(r * cols, (r + 1) * cols)
}

/// The first `rows` rows of a flat buffer, in order.
pub open spec fn rows_of<T>(flat: Seq<T>, cols: int, rows: int) -> Seq<Seq<T>> {
    Seq::new(rows as nat, |r: int| row_of(flat, cols, r))
}

/// Whether every row of `rows` has exactly `cols` values.
pub open spec fn uniform<T>(rows: Seq<Seq<T>>, cols: int) -> bool {
    forall|r: int| 0 <= r < rows.len() ==> (#[trigger] rows[r]).len() == cols
}

/// Row `r` of a block with `rows` rows lies inside the block, directly after
/// row `r - 1`.
pub proof fn lemma_row_bounds(r: int, rows: int, cols: int)
    by (nonlinear_arith)
    requires
        0 <= r < rows,
        0 < cols,
    ensures
        0 <= r * cols,
        (r + 1) * cols == r * cols + cols,
        (r + 1) * cols <= rows * cols,
{
}

/// Each row of a well-sized buffer has `cols` values, and the value at
/// column `c` of row `r` is the buffer's value at position `r * cols + c`.
pub proof fn lemma_row_entry<T>(flat: Seq<T>, cols: int, rows: int, r: int, c: int)
    requires
        0 < cols,
        flat.len() == flat_len(cols, rows),
        0 <= r < rows,
        0 <= c < cols,
    ensures
        row_of(flat, cols, r).len() == cols,
        0 <= r * cols + c < flat.len(),
        row_of(flat, cols, r)[c] == flat[r * cols + c],
{
    lemma_row_bounds(r, rows, cols);
}

/// Rows of `cols` values each, put one after another, make a sequence of
/// `rows.len() * cols` values in which column `c` of row `r` stands at
/// position `r * cols + c`.
pub proof fn lemma_concat_entry<T>(rows: Seq<Seq<T>>, cols: int, r: int, c: int)
    requires
        0 < cols,
        uniform(rows, cols),
        0 <= r < rows.len(),
        0 <= c < cols,
    ensures
        rows.flatten().len() == flat_len(cols, rows.len() as int),
        0 <= r * cols + c < rows.flatten().len(),
        rows.flatten()[r * cols + c] == rows[r][c],
    decreases rows.len(),
{
    let n = rows.len() as int;
    let front = rows.drop_last();
    let last = rows.last();
    assert(rows =~= front.push(last));
    front.lemma_flatten_push(last);
    lemma_concat_len(front, cols);
    lemma_row_bounds(n - 1, n, cols);
    lemma_row_bounds(r, n, cols);
    if r < n - 1 {
        lemma_concat_entry(front, cols, r, c);
    } else {
        assert(rows.flatten()[(n - 1) * cols + c] == last[c]);
    }
}

/// Rows of `cols` values each, put one after another, make a sequence of
/// `rows.len() * cols` values.
pub proof fn lemma_concat_len<T>(rows: Seq<Seq<T>>, cols: int)
    requires
        uniform(rows, cols),
    ensures
        rows.flatten().len() == flat_len(cols, rows.len() as int),
    decreases rows.len(),
{
    if rows.len() == 0 {
        assert(flat_len(cols, 0) == 0) by (nonlinear_arith);
    } else {
        let n = rows.len() as int;
        let front = rows.drop_last();
        assert(rows =~= front.push(rows.last()));
        front.lemma_flatten_push(rows.last());
        lemma_concat_len(front, cols);
        assert(n * cols == (n - 1) * cols + cols) by (nonlinear_arith);
    }
}

/// Cutting a well-sized buffer into its rows loses and reorders nothing:
/// the rows, put one after another, are the buffer again.
pub proof fn lemma_rows_partition<T>(flat: Seq<T>, cols: int, rows: int)
    requires
        0 < cols,
        0 <= rows,
        flat.len() == flat_len(cols, rows),
    ensures
        rows_of(flat, cols, rows).len() == rows,
        uniform(rows_of(flat, cols, rows), cols),
        rows_of(flat, cols, rows).flatten() == flat,
{
    let cut = rows_of(flat, cols, rows);
    assert forall|r: int| 0 <= r < cut.len() implies (#[trigger] cut[r]).len() == cols by {
        lemma_row_bounds(r, rows, cols);
    }
    lemma_concat_len(cut, cols);
    assert forall|i: int| 0 <= i < flat.len() implies cut.flatten()[i] == flat[i] by {
        let r = i / cols;
        let c = i % cols;
        lemma_split_index(i, cols, rows);
        lemma_concat_entry(cut, cols, r, c);
        lemma_row_entry(flat, cols, rows, r, c);
    }
    assert(cut.flatten() =~= flat);
}

/// A position inside a block of `rows * cols` values names one row and one
/// column of it.
pub proof fn lemma_split_index(i: int, cols: int, rows: int)
    by (nonlinear_arith)
    requires
        0 < cols,
        0 <= i < rows * cols,
    ensures
        0 <= i / cols < rows,
        0 <= i % cols < cols,
        i == (i / cols) * cols + i % cols,
{
}

/// Only one cutting fits: rows of `cols` values each that together make up
/// the buffer are the buffer's rows.
pub proof fn lemma_rows_unique<T>(flat: Seq<T>, parts: Seq<Seq<T>>, cols: int)
    requires
        0 < cols,
        uniform(parts, cols),
        parts.flatten() == flat,
    ensures
        flat.len() == flat_len(cols, parts.len() as int),
        parts == rows_of(flat, cols, parts.len() as int),
{
    let rows = parts.len() as int;
    lemma_concat_len(parts, cols);
    assert forall|r: int| 0 <= r < rows implies parts[r] == row_of(flat, cols, r) by {
        lemma_row_bounds(r, rows, cols);
        assert forall|c: int| 0 <= c < cols implies parts[r][c] == row_of(flat, cols, r)[c] by {
            lemma_concat_entry(parts, cols, r, c);
            lemma_row_entry(flat, cols, rows, r, c);
        }
        assert(parts[r] =~= row_of(flat, cols, r));
    }
    assert(parts =~= rows_of(flat, cols, rows));
}

} // verus!
