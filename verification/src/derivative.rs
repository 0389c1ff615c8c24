//! The Jacobian of the residuals with respect to one parameter block.
//!
//! The solver supplies the block as one flat buffer, or supplies nothing when
//! it does not want these derivatives. Here the buffer is cut, without
//! copying, into one mutable view per residual.

use crate::layout::{flat_len, lemma_row_bounds, row_of};
use vstd::prelude::*;

verus! {

/// Length of the flat buffer of a block, or `None` where that length is more
/// than a `usize` holds.
pub fn buffer_len(parameter_size: usize, num_residuals: usize) -> (out: Option<usize>)
    ensures
        out is Some <==> flat_len(parameter_size as int, num_residuals as int) <= usize::MAX,
        out matches Some(n) ==> n == flat_len(parameter_size as int, num_residuals as int),
{
    num_residuals.checked_mul(parameter_size)
}

/// Cuts `flat` into `rows` views of `cols` values each, in order.
///
/// View `r` shows the positions `r * cols .. (r + 1) * cols` of the buffer.
/// The views are the buffer's own memory: whatever they hold when they are
/// given up is, put one after another, what the buffer holds from then on.
pub fn split_rows<'a, T>(flat: &'a mut [T], cols: usize, rows: usize) -> (out: Vec<&'a mut [T]>)
    requires
        cols > 0,
        old(flat)@.len() == flat_len(cols as int, rows as int),
    ensures
        out@.len() == rows,
        forall|r: int| 0 <= r < rows ==> #[trigger] out@[r]@ == row_of(old(flat)@, cols as int, r),
        final(flat)@ == Seq::new(rows as nat, |r: int| final(out@[r])@).flatten(),
{
    let mut out: Vec<&'a mut [T]> = Vec::new();
    let mut rest = flat;
    let mut r: usize = 0;
    while r < rows
        invariant
            cols > 0,
            r <= rows,
            old(flat)@.len() == rows * cols,
            out@.len() == r,
            rest@ == old(flat)@.subrange(r * cols, rows * cols),
            forall|i: int| 0 <= i < r ==> #[trigger] out@[i]@ == row_of(old(flat)@, cols as int, i),
            final(flat)@ == Seq::new(r as nat, |i: int| final(out@[i])@).flatten() + final(rest)@,
        decreases rows - r,
    {
        proof {
            lemma_row_bounds(r as int, rows as int, cols as int);
        }
        let ghost before = out@;
        let whole = rest;
        let (head, tail) = whole.split_at_mut(cols);
        out.push(head);
        rest = tail;
        proof {
            let done = final(out@[r as int])@;
            let earlier = Seq::new(r as nat, |i: int| final(before[i])@);
            let now = Seq::new((r + 1) as nat, |i: int| final(out@[i])@);
            assert(now =~= earlier.push(done));
            earlier.lemma_flatten_push(done);
            assert(earlier.flatten() + (done + final(rest)@) =~= (earlier.flatten() + done)
                + final(rest)@);
        }
        r += 1;
    }
    out
}

/// The row views of one block, or `None` where the solver did not ask for the
/// block.
pub struct OwnedDerivative<'a, T>(pub Option<Vec<&'a mut [T]>>);

impl<'a, T> OwnedDerivative<'a, T> {
    /// Builds the row views over the buffer the solver supplied for a
    /// parameter block of `parameter_size` components.
    ///
    /// No buffer gives no views: the block stays absent, it does not become
    /// an empty or zeroed one. A buffer gives `num_residuals` views of
    /// `parameter_size` values, view `r` over the buffer's row `r`, and the
    /// buffer ends up holding what the views hold when they are given up.
    pub fn from_buffer(
        buffer: Option<&'a mut [T]>,
        parameter_size: usize,
        num_residuals: usize,
    ) -> (out: Self)
        requires
            buffer matches Some(flat) ==> parameter_size > 0 && flat@.len() == flat_len(
                parameter_size as int,
                num_residuals as int,
            ),
        ensures
            out.0 is Some <==> buffer is Some,
            buffer matches Some(flat) ==> {
                let rows = out.0.unwrap();
                &&& rows@.len() == num_residuals
                &&& forall|r: int|
                    0 <= r < num_residuals ==> #[trigger] rows@[r]@ == row_of(
                        flat@,
                        parameter_size as int,
                        r,
                    )
                &&& final(flat)@ == Seq::new(num_residuals as nat, |r: int| final(rows@[r])@).flatten()
            },
    {
        match buffer {
            None => OwnedDerivative(None),
            Some(flat) => OwnedDerivative(Some(split_rows(flat, parameter_size, num_residuals))),
        }
    }
}

} // verus!
