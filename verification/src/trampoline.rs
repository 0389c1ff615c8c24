//! One evaluation on behalf of the solver.
//!
//! The solver calls with the buffers of the current iterate. They are shaped
//! into the views the cost function expects, the cost function is called once,
//! and its verdict goes back as an integer. Nothing is kept between calls.

use crate::cost::CostFunction;
use crate::jacobian::{buffers_fit, OwnedJacobian};
use crate::layout::row_of;
use crate::types::JacobianType;
use vstd::prelude::*;

verus! {

/// The solver's status for a verdict of the cost function: nonzero for
/// success, zero for "could not evaluate here".
pub open spec fn status_of(ok: bool) -> int {
    if ok {
        1
    } else {
        0
    }
}

/// The solver's status for the cost function's verdict.
pub fn status_code(ok: bool) -> (status: i32)
    ensures
        status == status_of(ok),
        status != 0 <==> ok,
{
    if ok {
        1
    } else {
        0
    }
}

/// Whether `views` show, block by block and row by row, what `buffers` hold.
///
/// There are views exactly where there are buffers, at both levels: none at
/// all without a list of buffers, and none for a block without a buffer. The
/// views of block `i` are `num_residuals` rows, and row `r` shows row `r` of
/// buffer `i`, cut at the size of parameter `i`.
pub open spec fn shows_buffers<T>(
    views: JacobianType<T>,
    buffers: Option<Vec<Option<&mut [T]>>>,
    parameter_sizes: Seq<usize>,
    num_residuals: usize,
) -> bool {
    &&& views is Some <==> buffers is Some
    &&& buffers matches Some(bs) ==> {
        let blocks = views.unwrap();
        &&& blocks@.len() == bs@.len()
        &&& forall|i: int| 0 <= i < bs@.len() ==> (#[trigger] blocks@[i] is Some <==> bs@[i] is Some)
        &&& forall|i: int|
            0 <= i < bs@.len() ==> (#[trigger] bs@[i] matches Some(flat) ==> {
                let rows = blocks@[i].unwrap();
                &&& rows@.len() == num_residuals
                &&& forall|r: int|
                    0 <= r < num_residuals ==> #[trigger] rows@[r]@ == row_of(
                        flat@,
                        parameter_sizes[i] as int,
                        r,
                    )
            })
    }
}

/// Evaluates `cost` once on the solver's buffers and returns the solver's
/// status.
///
/// `jacobians` is `None` where the solver wants no derivatives, and otherwise
/// holds, for each parameter block in order, the flat buffer of that block or
/// `None`. The cost function is called exactly once, with the parameter
/// blocks as given, a view of `residuals`, and views that show the buffers
/// (see [`shows_buffers`]). The status is nonzero exactly when it returned
/// `true`; a `false` is passed on and nothing else happens.
///
/// All views are the buffers' own memory. `residuals` ends up as the cost
/// function left its view. Each Jacobian buffer ends up as the row views
/// built over it are when they are given up, one after another; and every
/// view that the cost function left where it found it is given up, as it
/// stands, when this function returns.
pub fn evaluate<'a, T, F>(
    cost: &CostFunction<F>,
    parameters: &[&[T]],
    residuals: &mut [T],
    jacobians: Option<Vec<Option<&'a mut [T]>>>,
) -> (status: i32) where F: Fn(&[&[T]], &mut [T], JacobianType<'_, T>) -> bool
    requires
        buffers_fit(jacobians, cost.spec_parameter_sizes(), cost.spec_num_residuals()),
        forall|r: &mut [T], j: JacobianType<T>|
            r@ == old(residuals)@ && shows_buffers(
                j,
                jacobians,
                cost.spec_parameter_sizes(),
                cost.spec_num_residuals(),
            ) ==> #[trigger] call_requires(cost.spec_func(), (parameters, r, j)),
    ensures
        exists|r: &mut [T], j: JacobianType<T>, ok: bool|
            {
                &&& #[trigger] call_ensures(cost.spec_func(), (parameters, r, j), ok)
                &&& status == status_of(ok)
                &&& r@ == old(residuals)@
                &&& final(r)@ == final(residuals)@
                &&& shows_buffers(
                    j,
                    jacobians,
                    cost.spec_parameter_sizes(),
                    cost.spec_num_residuals(),
                )
                &&& jacobians matches Some(bs) ==> forall|i: int|
                    0 <= i < bs@.len() ==> (#[trigger] bs@[i] matches Some(flat) ==> {
                        let rows = j.unwrap()@[i].unwrap();
                        final(flat)@ == Seq::new(
                            cost.spec_num_residuals() as nat,
                            |k: int| final(rows@[k])@,
                        ).flatten()
                    })
                &&& j matches Some(blocks) ==> forall|i: int|
                    0 <= i < final(blocks)@.len() ==> (#[trigger] final(blocks)@[i] matches Some(left)
                        ==> final(left)@ == left@)
                &&& j matches Some(blocks) ==> forall|i: int|
                    0 <= i < blocks@.len() ==> (#[trigger] blocks@[i] matches Some(rows) ==> {
                        let last = final(rows)@;
                        forall|k: int| 0 <= k < last.len() ==> #[trigger] final(last[k])@ == last[k]@
                    })
            },
        (forall|r: &mut [T], j: JacobianType<T>, o: bool| #[trigger]
            call_ensures(cost.spec_func(), (parameters, r, j), o) ==> !o) ==> status == 0,
{
    let mut owned = OwnedJacobian::from_buffers(
        jacobians,
        cost.parameter_sizes(),
        cost.num_residuals(),
    );
    let mut views = owned.references();
    let j: JacobianType<'_, T> = match &mut views {
        Some(v) => Some(v.as_mut_slice()),
        None => None,
    };
    let ghost lent = j;
    let ok = cost.cost(parameters, residuals, j);
    proof {
        if lent is Some {
            let blocks = lent.unwrap();
            let held = after_borrow(views).unwrap();
            let kept = after_borrow(owned).0.unwrap();
            assert(has_resolved(after_borrow(views)));
            assert(has_resolved(after_borrow(owned)));
            assert(final(blocks)@ == held@);
            assert(has_resolved(held));
            assert(has_resolved(kept));
            assert forall|i: int| 0 <= i < final(blocks)@.len() implies (#[trigger] final(blocks)@[i]
                matches Some(left) ==> final(left)@ == left@) by {
                assert(has_resolved(held@[i]));
            }
            assert forall|i: int| 0 <= i < blocks@.len() implies (#[trigger] blocks@[i] matches Some(
                rows,
            ) ==> {
                let last = final(rows)@;
                forall|k: int| 0 <= k < last.len() ==> #[trigger] final(last[k])@ == last[k]@
            }) by {
                if blocks@[i] is Some {
                    let rows = blocks@[i].unwrap();
                    let last = final(rows)@;
                    assert(has_resolved(kept@[i]));
                    let inner = kept@[i].unwrap();
                    assert(has_resolved(inner));
                    assert(inner@ == last);
                    assert forall|k: int| 0 <= k < last.len() implies #[trigger] final(last[k])@
                        == last[k]@ by {
                        assert(has_resolved(inner@[k]));
                    }
                }
            }
        }
    }
    status_code(ok)
}

/// What a cost function writes through the row views of a block reaches the
/// block's buffer: where it leaves the views in their place, the buffer ends
/// up holding, row after row, what the views hold at the end.
///
/// `handed` are the row views as the cost function received them, `found`
/// the ones in their place when it returned, and `ended` is what the buffer
/// ends up holding. The first two conditions are what [`evaluate`] promises;
/// the last two say that the cost function left the views where they were.
pub proof fn lemma_writes_reach_buffer<T>(
    ended: Seq<T>,
    handed: Seq<&mut [T]>,
    found: Seq<&mut [T]>,
)
    requires
        ended == Seq::new(handed.len(), |k: int| final(handed[k])@).flatten(),
        forall|k: int| 0 <= k < found.len() ==> #[trigger] final(found[k])@ == found[k]@,
        found.len() == handed.len(),
        forall|k: int| 0 <= k < found.len() ==> #[trigger] final(found[k])@ == final(handed[k])@,
    ensures
        ended == Seq::new(found.len(), |k: int| found[k]@).flatten(),
{
    let promised = Seq::new(handed.len(), |k: int| final(handed[k])@);
    let shown = Seq::new(found.len(), |k: int| found[k]@);
    assert forall|k: int| 0 <= k < found.len() implies promised[k] == shown[k] by {
        assert(final(found[k])@ == final(handed[k])@);
        assert(final(found[k])@ == found[k]@);
    }
    assert(promised =~= shown);
}

} // verus!
