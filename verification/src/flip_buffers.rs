//! Fixed-capacity buffers for the capture search, backed by
//! `arrayvec::ArrayVec`: one sized for a single direction's run (at most 8
//! cells) and one for a whole move's captures (at most 64 cells). Each buffer
//! is opaque to the verifier; an uninterpreted view names the cell indices it
//! holds, and the wrappers below state how each `ArrayVec` call moves that
//! view.

use vstd::prelude::*;

verus! {

#[verifier::external_type_specification]
#[verifier::external_body]
#[verifier::reject_recursive_types(T)]
pub struct ExArrayVec<T, const CAP: usize>(arrayvec::ArrayVec<T, CAP>);

/// The cell indices held by a single-direction run buffer, in insertion
/// order.
pub uninterp spec fn run_elems(v: arrayvec::ArrayVec<usize, 8>) -> Seq<usize>;

/// The cell indices held by a whole-move capture buffer, in insertion order.
pub uninterp spec fn move_elems(v: arrayvec::ArrayVec<usize, 64>) -> Seq<usize>;

/// Relies on arrayvec::ArrayVec::new: a fresh vector holds no elements.
#[verifier::external_body]
pub(crate) fn run_new() -> (v: arrayvec::ArrayVec<usize, 8>)
    ensures
        run_elems(v) == Seq::<usize>::empty(),
{
    arrayvec::ArrayVec::new()
}

/// Relies on arrayvec::ArrayVec::push: appends the element at the end. It
/// panics on a full vector, which the precondition rules out.
#[verifier::external_body]
pub(crate) fn run_push(v: &mut arrayvec::ArrayVec<usize, 8>, x: usize)
    requires
        run_elems(*old(v)).len() < 8,
    ensures
        run_elems(*final(v)) == run_elems(*old(v)).push(x),
{
    v.push(x)
}

/// Relies on arrayvec::ArrayVec::new: a fresh vector holds no elements.
#[verifier::external_body]
pub(crate) fn move_new() -> (v: arrayvec::ArrayVec<usize, 64>)
    ensures
        move_elems(v) == Seq::<usize>::empty(),
{
    arrayvec::ArrayVec::new()
}

/// Relies on arrayvec::ArrayVec::try_extend_from_slice (via as_slice): when
/// the elements fit in the remaining capacity they are appended in order and
/// it returns Ok; otherwise it changes nothing and returns a capacity error.
#[verifier::external_body]
pub(crate) fn move_extend(
    all: &mut arrayvec::ArrayVec<usize, 64>,
    run: &arrayvec::ArrayVec<usize, 8>,
) -> (ok: bool)
    ensures
        move_elems(*old(all)).len() + run_elems(*run).len() <= 64 ==> ok && move_elems(*final(all))
            == move_elems(*old(all)) + run_elems(*run),
        move_elems(*old(all)).len() + run_elems(*run).len() > 64 ==> !ok && *final(all) == *old(
            all,
        ),
{
    all.try_extend_from_slice(run.as_slice()).is_ok()
}

/// Relies on arrayvec::ArrayVec::is_empty.
#[verifier::external_body]
pub(crate) fn move_is_empty(all: &arrayvec::ArrayVec<usize, 64>) -> (r: bool)
    ensures
        r == (move_elems(*all).len() == 0),
{
    all.is_empty()
}

/// Relies on arrayvec::ArrayVec::as_slice: the elements in insertion order.
#[verifier::external_body]
pub(crate) fn move_to_vec(all: &arrayvec::ArrayVec<usize, 64>) -> (v: Vec<usize>)
    ensures
        v@ == move_elems(*all),
{
    all.as_slice().to_vec()
}

} // verus!
