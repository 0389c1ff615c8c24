//! The types a cost function is written against.

use vstd::prelude::*;

verus! {

/// The Jacobian as a cost function receives it.
///
/// `None` means that the solver wants no derivatives in this call. Otherwise
/// there is one entry per parameter block, in the order of the blocks; an
/// entry is `None` where the solver does not want the derivatives with
/// respect to that block, and otherwise holds one mutable row per residual,
/// each row holding one value per component of the parameter.
pub type JacobianType<'a, T> = Option<&'a mut [Option<&'a mut [&'a mut [T]]>]>;

/// The values of all parameter blocks, block by block.
pub open spec fn blocks_of<T>(parameters: &[&[T]]) -> Seq<Seq<T>> {
    Seq::new(parameters@.len(), |i: int| parameters@[i]@)
}

} // verus!
