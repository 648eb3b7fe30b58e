//! Operations on `Rc`, each with what is taken for granted of it. None of
//! them unwinds, so that destructors may call them.

use std::rc::Rc;
use vstd::prelude::*;

verus! {

/// `Rc::clone`: a second pointer to the same allocation, so the value that
/// the result points to is the one `a` points to. It does not unwind: a
/// reference count that overflows aborts the process.
#[verifier::external_body]
pub(crate) fn rc_clone<T>(a: &Rc<T>) -> (res: Rc<T>)
    ensures
        res == *a,
    opens_invariants none
    no_unwind
{
    Rc::clone(a)
}

/// `Rc::get_mut`: a mutable borrow of the pointee when no other pointer to
/// the allocation exists, `None` otherwise. On `Some`, the borrow starts at
/// the current pointee and whatever is written through it is what `rc` holds
/// afterwards; on `None`, `rc` is left as it was. It never unwinds.
#[verifier::external_body]
pub(crate) fn rc_get_mut<T>(rc: &mut Rc<T>) -> (r: Option<&mut T>)
    ensures
        match r {
            Some(p) => *p == **old(rc) && **final(rc) == *final(p),
            None => *final(rc) == *old(rc),
        },
    opens_invariants none
    no_unwind
{
    Rc::get_mut(rc)
}

/// `Rc::new`: a fresh allocation that holds `t`. It does not unwind: a
/// failed allocation aborts the process.
#[verifier::external_body]
pub(crate) fn rc_new<T>(t: T) -> (res: Rc<T>)
    ensures
        *res == t,
    opens_invariants none
    no_unwind
{
    Rc::new(t)
}

/// `Rc::try_unwrap`: the pointee itself when `rc` is the only strong pointer
/// to it, the pointer handed back otherwise. Which of the two happens
/// depends on how the allocation is shared, so both outcomes are allowed;
/// either way the value is the one `rc` pointed to. It never unwinds.
#[verifier::external_body]
pub(crate) fn rc_try_unwrap<T>(rc: Rc<T>) -> (res: Result<T, Rc<T>>)
    ensures
        match res {
            Ok(t) => t == *rc,
            Err(r) => r == rc,
        },
    opens_invariants none
    no_unwind
{
    Rc::try_unwrap(rc)
}

} // verus!
