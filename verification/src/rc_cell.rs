//! A `RefCell`-like container whose borrow state is an explicit counter.
//!
//! The counter follows the convention of std's `RefCell`: zero means unused,
//! a positive value counts the shared (read) borrows, a negative value marks
//! the exclusive (write) borrow.

use vstd::prelude::*;
use crate::weak::WeakCell;

verus! {

/// Borrow counter of an `RcCell`.
pub type BorrowFlag = isize;

/// Value of the counter when the cell is not borrowed.
pub const UNUSED: BorrowFlag = 0;

/// Whether the counter records an exclusive (write) borrow.
pub fn is_writing(x: BorrowFlag) -> (r: bool)
    ensures
        r == (x < UNUSED),
{
    x < UNUSED
}

/// Whether the counter records at least one shared (read) borrow.
pub fn is_reading(x: BorrowFlag) -> (r: bool)
    ensures
        r == (x > UNUSED),
{
    x > UNUSED
}

/// Counter after a successful read lock taken from counter `f`, if any.
///
/// The counter is incremented with wrap-around; the lock is granted when the
/// result counts readers, so it is refused under a write lock and on overflow.
pub open spec fn lock_read_spec(f: BorrowFlag) -> Option<BorrowFlag> {
    if 0 <= f && f < isize::MAX { Some((f + 1) as isize) } else { None }
}

/// Counter after a successful write lock taken from counter `f`, if any.
pub open spec fn lock_write_spec(f: BorrowFlag) -> Option<BorrowFlag> {
    if f == UNUSED { Some(-1isize) } else { None }
}

/// Counter after releasing one read lock.
pub open spec fn unlock_read_spec(f: BorrowFlag) -> BorrowFlag {
    (f - 1) as isize
}

/// Counter after releasing the write lock.
pub open spec fn unlock_write_spec(f: BorrowFlag) -> BorrowFlag {
    (f + 1) as isize
}

/// Error returned when a shared borrow is refused.
#[derive(Debug, Copy, Clone)]
pub struct BorrowError;

/// Error returned when an exclusive borrow is refused.
#[derive(Debug, Copy, Clone)]
pub struct BorrowMutError;

impl BorrowError {
    /// The error message.
    pub fn message(&self) -> (s: &'static str)
        ensures
            s@ == "already mutably borrowed"@,
    {
        "already mutably borrowed"
    }
}

impl BorrowMutError {
    /// The error message.
    pub fn message(&self) -> (s: &'static str)
        ensures
            s@ == "already borrowed"@,
    {
        "already borrowed"
    }
}

/// A value together with its borrow counter.
pub struct RcCell<T> {
    borrow: BorrowFlag,
    inner: T,
}

impl<T> RcCell<T> {
    /// The borrow counter.
    pub closed spec fn flag(&self) -> BorrowFlag {
        self.borrow
    }

    /// The contained value.
    pub closed spec fn value(&self) -> T {
        self.inner
    }

    /// Wraps `inner` in an unborrowed cell.
    pub fn new(inner: T) -> (c: Self)
        ensures
            c.flag() == UNUSED,
            c.value() == inner,
    {
        RcCell { borrow: UNUSED, inner }
    }

    /// Returns the current borrow counter.
    pub fn borrow_flag(&self) -> (r: BorrowFlag)
        ensures
            r == self.flag(),
    {
        self.borrow
    }

    /// Tries to take a shared lock; returns whether it was granted.
    pub fn try_lock_read(&mut self) -> (r: bool)
        ensures
            r == lock_read_spec(old(self).flag()) is Some,
            r ==> final(self).flag() == lock_read_spec(old(self).flag())->0,
            !r ==> final(self).flag() == old(self).flag(),
            final(self).value() == old(self).value(),
    {
        let b = self.borrow.wrapping_add(1);
        if !is_reading(b) {
            // overflow, or a write lock is held
            false
        } else {
            self.borrow = b;
            true
        }
    }

    /// Releases one shared lock.
    pub fn unlock_read(&mut self)
        requires
            is_reading_spec(old(self).flag()),
        ensures
            final(self).flag() == unlock_read_spec(old(self).flag()),
            final(self).value() == old(self).value(),
    {
        self.borrow = self.borrow - 1;
    }

    /// Tries to take the exclusive lock; returns whether it was granted.
    pub fn try_lock_write(&mut self) -> (r: bool)
        ensures
            r == lock_write_spec(old(self).flag()) is Some,
            r ==> final(self).flag() == lock_write_spec(old(self).flag())->0,
            !r ==> final(self).flag() == old(self).flag(),
            final(self).value() == old(self).value(),
    {
        if self.borrow == UNUSED {
            self.borrow = UNUSED - 1;
            true
        } else {
            false
        }
    }

    /// Releases the exclusive lock.
    pub fn unlock_write(&mut self)
        requires
            is_writing_spec(old(self).flag()),
        ensures
            final(self).flag() == unlock_write_spec(old(self).flag()),
            final(self).value() == old(self).value(),
    {
        self.borrow = self.borrow + 1;
    }

    /// Returns the contained value, whatever the borrow state.
    pub fn get(&self) -> (r: &T)
        ensures
            *r == self.value(),
    {
        &self.inner
    }

    /// Returns exclusive access to the contained value; the borrow counter
    /// is left as it is.
    pub fn get_mut(&mut self) -> (r: &mut T)
        ensures
            *r == old(self).value(),
            final(self).value() == *final(r),
            final(self).flag() == old(self).flag(),
    {
        &mut self.inner
    }

    /// Returns the contained value unless an exclusive lock is held.
    pub fn try_borrow_unguarded(&self) -> (r: Result<&T, BorrowError>)
        ensures
            r is Ok <==> !is_writing_spec(self.flag()),
            r matches Ok(v) ==> *v == self.value(),
    {
        if !is_writing(self.borrow) {
            Ok(&self.inner)
        } else {
            Err(BorrowError)
        }
    }
}

pub open spec fn is_writing_spec(x: BorrowFlag) -> bool {
    x < UNUSED
}

pub open spec fn is_reading_spec(x: BorrowFlag) -> bool {
    x > UNUSED
}

/// Taking a shared lock and releasing it gives back the counter it started from.
pub proof fn lemma_read_lock_round_trip(f: BorrowFlag)
    requires
        lock_read_spec(f) is Some,
    ensures
        is_reading_spec(lock_read_spec(f)->0),
        unlock_read_spec(lock_read_spec(f)->0) == f,
{
}

/// Taking the exclusive lock and releasing it leaves the cell unused again.
pub proof fn lemma_write_lock_round_trip(f: BorrowFlag)
    requires
        lock_write_spec(f) is Some,
    ensures
        f == UNUSED,
        is_writing_spec(lock_write_spec(f)->0),
        unlock_write_spec(lock_write_spec(f)->0) == UNUSED,
{
}

/// Shared and exclusive locks exclude each other: while a write lock is held
/// no lock of either kind is granted, and while a read lock is held no write
/// lock is granted.
pub proof fn lemma_locks_exclusive(f: BorrowFlag)
    ensures
        is_writing_spec(f) ==> lock_read_spec(f) is None && lock_write_spec(f) is None,
        is_reading_spec(f) ==> lock_write_spec(f) is None,
{
}

/// A cell that is known to be the only owner of its value. It gives mutable
/// access to the value; the weak handles made from it cannot be upgraded
/// while it is unique, which it stays for its whole life.
pub struct UniqueRcCell<T> {
    cell: RcCell<T>,
}

impl<T> UniqueRcCell<T> {
    /// The contained value.
    pub closed spec fn value(&self) -> T {
        self.cell.value()
    }

    /// The borrow counter.
    pub closed spec fn flag(&self) -> BorrowFlag {
        self.cell.flag()
    }

    /// Wraps `value` in an unborrowed, uniquely owned cell.
    pub fn new(value: T) -> (c: Self)
        ensures
            c.value() == value,
            c.flag() == UNUSED,
    {
        UniqueRcCell { cell: RcCell::new(value) }
    }

    /// Returns the contained value.
    pub fn get(&self) -> (r: &T)
        ensures
            *r == self.value(),
    {
        self.cell.get()
    }

    /// Returns exclusive access to the contained value; the borrow counter
    /// is left as it is.
    pub fn get_mut(&mut self) -> (r: &mut T)
        ensures
            *r == old(self).value(),
            final(self).value() == *final(r),
            final(self).flag() == old(self).flag(),
    {
        self.cell.get_mut()
    }

    /// Returns a weak handle to the cell. As the cell stays unique, the
    /// handle never upgrades.
    pub fn weak(&self) -> (w: WeakCell<T>)
        ensures
            w.target() is None,
    {
        WeakCell::unshared()
    }
}

} // verus!
