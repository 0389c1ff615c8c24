//! The Jacobian of the residuals with respect to every parameter block.
//!
//! The solver may ask for no Jacobian at all, or for the blocks of some
//! parameters and not of others. Both levels of "not asked for" are kept
//! apart from each other and from "asked for, and empty".

use crate::derivative::OwnedDerivative;
use crate::layout::{flat_len, row_of};
use vstd::prelude::*;

verus! {

/// Whether the buffers the solver supplied agree with the shape of the
/// problem: one entry per parameter block and, where a block is asked for, a
/// buffer of `num_residuals` rows of that parameter's size, which is not zero.
pub open spec fn buffers_fit<T>(
    buffers: Option<Vec<Option<&mut [T]>>>,
    parameter_sizes: Seq<usize>,
    num_residuals: usize,
) -> bool {
    buffers matches Some(bs) ==> {
        &&& bs@.len() == parameter_sizes.len()
        &&& forall|i: int|
            0 <= i < bs@.len() ==> (#[trigger] bs@[i] matches Some(flat) ==> parameter_sizes[i] > 0
                && flat@.len() == flat_len(parameter_sizes[i] as int, num_residuals as int))
    }
}

/// The row views of every block that the solver asked for, in the order of
/// the parameter blocks, or `None` where it asked for no Jacobian.
pub struct OwnedJacobian<'a, T>(pub Option<Vec<Option<Vec<&'a mut [T]>>>>);

impl<'a, T> OwnedJacobian<'a, T> {
    /// Builds, for each parameter block, the row views over the buffer the
    /// solver supplied for it.
    ///
    /// Without a list of buffers the result is `None`, not a list of `None`s.
    /// With one, entry `i` of the result is `None` exactly where buffer `i` is
    /// missing, whatever the other entries are, and otherwise holds
    /// `num_residuals` views of `parameter_sizes[i]` values over the rows of
    /// buffer `i`. Each buffer ends up holding what its views hold when they
    /// are given up.
    pub fn from_buffers(
        buffers: Option<Vec<Option<&'a mut [T]>>>,
        parameter_sizes: &[usize],
        num_residuals: usize,
    ) -> (out: Self)
        requires
            buffers_fit(buffers, parameter_sizes@, num_residuals),
        ensures
            out.0 is Some <==> buffers is Some,
            buffers matches Some(bs) ==> {
                let blocks = out.0.unwrap();
                &&& blocks@.len() == bs@.len()
                &&& forall|i: int|
                    0 <= i < bs@.len() ==> (#[trigger] blocks@[i] is Some <==> bs@[i] is Some)
                &&& forall|i: int|
                    0 <= i < bs@.len() ==> (#[trigger] bs@[i] matches Some(flat) ==> {
                        let rows = blocks@[i].unwrap();
                        &&& rows@.len() == num_residuals
                        &&& forall|r: int|
                            0 <= r < num_residuals ==> #[trigger] rows@[r]@ == row_of(
                                flat@,
                                parameter_sizes@[i] as int,
                                r,
                            )
                        &&& final(flat)@ == Seq::new(
                            num_residuals as nat,
                            |r: int| final(rows@[r])@,
                        ).flatten()
                    })
            },
    {
        match buffers {
            None => OwnedJacobian(None),
            Some(bs) => {
                let ghost given = bs@;
                let mut blocks: Vec<Option<Vec<&'a mut [T]>>> = Vec::new();
                let mut i: usize = 0;
                for buffer in it: bs
                    invariant
                        i == it.index(),
                        it.seq() == given,
                        given.len() == parameter_sizes@.len(),
                        forall|k: int|
                            0 <= k < given.len() ==> (#[trigger] given[k] matches Some(flat)
                                ==> parameter_sizes@[k] > 0 && flat@.len() == flat_len(
                                parameter_sizes@[k] as int,
                                num_residuals as int,
                            )),
                        blocks@.len() == i,
                        forall|k: int|
                            0 <= k < i ==> (#[trigger] blocks@[k] is Some <==> given[k] is Some),
                        forall|k: int|
                            0 <= k < i ==> (#[trigger] given[k] matches Some(flat) ==> {
                                let rows = blocks@[k].unwrap();
                                &&& rows@.len() == num_residuals
                                &&& forall|r: int|
                                    0 <= r < num_residuals ==> #[trigger] rows@[r]@ == row_of(
                                        flat@,
                                        parameter_sizes@[k] as int,
                                        r,
                                    )
                                &&& final(flat)@ == Seq::new(
                                    num_residuals as nat,
                                    |r: int| final(rows@[r])@,
                                ).flatten()
                            }),
                {
                    let block = OwnedDerivative::from_buffer(
                        buffer,
                        parameter_sizes[i],
                        num_residuals,
                    );
                    blocks.push(block.0);
                    i += 1;
                }
                OwnedJacobian(Some(blocks))
            },
        }
    }

    /// Lends every block as one mutable slice of its row views, which is the
    /// form a cost function takes them in.
    ///
    /// Absence is kept at both levels. Slice `i` starts out as the row views
    /// of block `i`, in order. The lender keeps, in block `i`, the row views
    /// that slice `i` holds when the slice is given up.
    pub fn references(&'a mut self) -> (out: Option<Vec<Option<&'a mut [&'a mut [T]]>>>)
        ensures
            out is Some <==> old(self).0 is Some,
            final(self).0 is Some <==> old(self).0 is Some,
            old(self).0 matches Some(blocks) ==> {
                let views = out.unwrap();
                let kept = final(self).0.unwrap();
                &&& views@.len() == blocks@.len()
                &&& kept@.len() == blocks@.len()
                &&& forall|i: int|
                    0 <= i < blocks@.len() ==> (#[trigger] views@[i] is Some <==> blocks@[i] is Some)
                &&& forall|i: int|
                    0 <= i < blocks@.len() ==> (#[trigger] kept@[i] is Some <==> blocks@[i] is Some)
                &&& forall|i: int|
                    0 <= i < blocks@.len() ==> (#[trigger] blocks@[i] matches Some(rows) ==> {
                        &&& views@[i].unwrap()@ == rows@
                        &&& final(views@[i].unwrap())@ == kept@[i].unwrap()@
                    })
            },
    {
        match &mut self.0 {
            None => None,
            Some(blocks) => {
                let ghost given = blocks@;
                let mut views: Vec<Option<&'a mut [&'a mut [T]]>> = Vec::new();
                let mut rest: &'a mut [Option<Vec<&'a mut [T]>>] = blocks.as_mut_slice();
                let ghost all = rest;
                let n: usize = rest.len();
                let mut i: usize = 0;
                while i < n
                    invariant
                        i <= n,
                        n == given.len(),
                        rest@ == given.subrange(i as int, n as int),
                        views@.len() == i,
                        forall|k: int|
                            0 <= k < i ==> (#[trigger] views@[k] is Some <==> given[k] is Some),
                        forall|k: int|
                            0 <= k < i ==> (#[trigger] given[k] matches Some(rows)
                                ==> views@[k].unwrap()@ == rows@),
                        final(all)@.len() == i + final(rest)@.len(),
                        forall|k: int|
                            i <= k < final(all)@.len() ==> #[trigger] final(all)@[k]
                                == final(rest)@[k - i],
                        forall|k: int|
                            0 <= k < i ==> (#[trigger] final(all)@[k] is Some <==> given[k] is Some),
                        forall|k: int|
                            0 <= k < i ==> (#[trigger] given[k] is Some
                                ==> final(views@[k].unwrap())@ == final(all)@[k].unwrap()@),
                    decreases n - i,
                {
                    let whole = rest;
                    let (head, tail) = whole.split_at_mut(1);
                    let view: Option<&'a mut [&'a mut [T]]> = match head.first_mut() {
                        Some(Some(rows)) => Some(rows.as_mut_slice()),
                        _ => None,
                    };
                    views.push(view);
                    rest = tail;
                    i += 1;
                }
                Some(views)
            },
        }
    }
}

} // verus!
