//! The cost function of a residual block: the user's closure together with
//! the shape of the block it evaluates.

use crate::types::{blocks_of, JacobianType};
use vstd::prelude::*;

verus! {

/// A cost function and the shape it was declared with: the size of each
/// parameter block, in order, and the number of residuals.
///
/// The shape is fixed when the value is made and can only be read afterwards.
pub struct CostFunction<F> {
    parameter_sizes: Vec<usize>,
    num_residuals: usize,
    func: F,
}

impl<F> CostFunction<F> {
    /// The declared size of each parameter block.
    pub closed spec fn spec_parameter_sizes(&self) -> Seq<usize> {
        self.parameter_sizes@
    }

    /// The declared number of residuals.
    pub closed spec fn spec_num_residuals(&self) -> usize {
        self.num_residuals
    }

    /// The closure that evaluates the residuals and their derivatives.
    pub closed spec fn spec_func(&self) -> F {
        self.func
    }

    /// Makes a cost function from a closure and the shape of its residual
    /// block.
    ///
    /// The closure takes the parameter blocks, the residuals to fill in and
    /// the Jacobian to fill in where one is wanted, and returns whether it
    /// could evaluate them.
    pub fn new(func: F, parameter_sizes: Vec<usize>, num_residuals: usize) -> (out: Self)
        ensures
            out.spec_parameter_sizes() == parameter_sizes@,
            out.spec_num_residuals() == num_residuals,
            out.spec_func() == func,
    {
        CostFunction { parameter_sizes, num_residuals, func }
    }

    /// Lengths of the parameter vectors.
    pub fn parameter_sizes(&self) -> (out: &[usize])
        ensures
            out@ == self.spec_parameter_sizes(),
    {
        self.parameter_sizes.as_slice()
    }

    /// Length of the residual vector.
    pub fn num_residuals(&self) -> (out: usize)
        ensures
            out == self.spec_num_residuals(),
    {
        self.num_residuals
    }

    /// Parameter count.
    pub fn num_parameters(&self) -> (out: usize)
        ensures
            out == self.spec_parameter_sizes().len(),
    {
        self.parameter_sizes.len()
    }

    /// Calls the underlying closure on the caller's own views.
    ///
    /// The call is the closure's and nothing else: the result is what the
    /// closure returned for these arguments, and `residuals` ends up as the
    /// closure left its residual view.
    pub fn cost<T>(
        &self,
        parameters: &[&[T]],
        residuals: &mut [T],
        jacobians: JacobianType<'_, T>,
    ) -> (ok: bool) where F: Fn(&[&[T]], &mut [T], JacobianType<'_, T>) -> bool
        requires
            forall|r: &mut [T]|
                r@ == old(residuals)@ ==> #[trigger] call_requires(
                    self.spec_func(),
                    (parameters, r, jacobians),
                ),
        ensures
            exists|r: &mut [T]|
                r@ == old(residuals)@ && final(r)@ == final(residuals)@ && #[trigger] call_ensures(
                    self.spec_func(),
                    (parameters, r, jacobians),
                    ok,
                ),
    {
        assert(self.spec_func() == self.func);
        (self.func)(parameters, residuals, jacobians)
    }
}

/// A direct call reproduces a reference computation: where the closure
/// promises to leave in its residual view what `reference` makes of the
/// parameter values, the outcome of [`CostFunction::cost`] is that the
/// caller's residuals are exactly those values.
pub proof fn lemma_direct_call_matches_reference<T, F>(
    cost: CostFunction<F>,
    parameters: &[&[T]],
    before: Seq<T>,
    after: Seq<T>,
    jacobians: JacobianType<T>,
    ok: bool,
    reference: spec_fn(Seq<Seq<T>>) -> Seq<T>,
) where F: Fn(&[&[T]], &mut [T], JacobianType<'_, T>) -> bool
    requires
        forall|p: &[&[T]], r: &mut [T], j: JacobianType<T>, o: bool| #[trigger]
            call_ensures(cost.spec_func(), (p, r, j), o) ==> final(r)@ == reference(blocks_of(p)),
        exists|r: &mut [T]|
            r@ == before && final(r)@ == after && #[trigger] call_ensures(
                cost.spec_func(),
                (parameters, r, jacobians),
                ok,
            ),
    ensures
        after == reference(blocks_of(parameters)),
{
}

} // verus!
