//! Weak handles to reference-counted values.

use vstd::prelude::*;
use std::rc::{Rc, Weak};
use crate::rc_cell::RcCell;

verus! {

/// A `std::rc::Weak`, opaque to the proofs (its allocator parameter keeps it
/// from being declared directly).
#[verifier::external_body]
#[verifier::reject_recursive_types(T)]
pub struct WeakHandle<T> {
    inner: Weak<T>,
}

/// A weak pointer together with the value of the allocation it was made
/// from, or `None` for a weak pointer to no allocation.
#[verifier::reject_recursive_types(T)]
pub struct WeakPtr<T> {
    handle: WeakHandle<T>,
    target: Ghost<Option<T>>,
}

impl<T> WeakPtr<T> {
    /// The value behind the allocation this weak pointer points to, if it
    /// points to one.
    pub closed spec fn target(&self) -> Option<T> {
        self.target@
    }
}

/// `Rc::downgrade`: makes a weak pointer to the allocation of `rc`, whose
/// value is the one behind `rc`.
#[verifier::external_body]
pub(crate) fn rc_downgrade<T>(rc: &Rc<T>) -> (w: WeakPtr<T>)
    ensures
        w.target() == Some(**rc),
{
    WeakPtr { handle: WeakHandle { inner: Rc::downgrade(rc) }, target: Ghost(Some(**rc)) }
}

/// `Weak::new`: a weak pointer to no allocation; upgrading it always gives
/// `None`.
#[verifier::external_body]
pub(crate) fn weak_new<T>() -> (w: WeakPtr<T>)
    ensures
        w.target() is None,
{
    WeakPtr { handle: WeakHandle { inner: Weak::new() }, target: Ghost(None) }
}

/// `Weak::upgrade`: a strong pointer to the allocation if it is still alive.
/// Whether it is alive depends on the other owners at run time, so when the
/// result is `Some` is not stated; when it is, the weak pointer points to an
/// allocation and the result leads to it, whose value an `Rc` never changes
/// while weak pointers to it exist. A weak pointer to no allocation never
/// upgrades.
#[verifier::external_body]
pub(crate) fn weak_upgrade<T>(w: &WeakPtr<T>) -> (r: Option<Rc<T>>)
    ensures
        r matches Some(p) ==> w.target() == Some(*p),
{
    w.handle.inner.upgrade()
}

/// A weak handle to an `RcCell`.
#[verifier::reject_recursive_types(T)]
pub struct WeakCell<T> {
    inner: WeakPtr<RcCell<T>>,
}

impl<T> WeakCell<T> {
    /// The cell this handle was made from, if it was made from a shared one.
    pub closed spec fn target(&self) -> Option<RcCell<T>> {
        self.inner.target()
    }

    /// A handle that is not shared with anything: it never upgrades.
    pub(crate) fn unshared() -> (w: WeakCell<T>)
        ensures
            w.target() is None,
    {
        WeakCell { inner: weak_new() }
    }

    /// Returns the cell if it is still alive: then it is the cell this handle
    /// was made from. A handle that was made from no shared cell never
    /// upgrades.
    pub fn upgrade(&self) -> (r: Option<Rc<RcCell<T>>>)
        ensures
            self.target() is None ==> r is None,
            r matches Some(c) ==> self.target() == Some(*c),
    {
        weak_upgrade(&self.inner)
    }
}

} // verus!
