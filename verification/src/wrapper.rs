//! The ownership wrapper: a reference-counted handle giving shared-read /
//! exclusive-write access to a value through a verified reader-writer lock.
//!
//! Cloning a `Wrapper` yields a new handle to the same underlying lock, so
//! a write through one clone is seen by later reads through any other. The
//! lock maintains the wrapped type's well-formedness predicate: every value
//! placed behind it must satisfy [`Shared::inv`], and every value read back
//! out is known to satisfy it.

use std::sync::Arc;
use vstd::prelude::*;
use vstd::rwlock::{ReadHandle, RwLock, RwLockPredicate, WriteHandle};

verus! {

/// A type that can live behind a [`Wrapper`]: it names the well-formedness
/// condition the lock maintains for it.
pub trait Shared: Sized {
    /// The condition every value stored behind a wrapper satisfies.
    spec fn inv(&self) -> bool;
}

/// The lock predicate tying a wrapped value to its type's [`Shared::inv`].
pub struct InvPred;

impl<T: Shared> RwLockPredicate<T> for InvPred {
    open spec fn inv(self, v: T) -> bool {
        v.inv()
    }
}

/// A shared, lock-guarded handle to a value of type `T`.
///
/// The value is reachable only through a guard: [`Wrapper::read`] grants
/// shared access, [`Wrapper::write`] exclusive access. The underlying lock
/// admits many concurrent readers or one writer, never both at once.
pub struct Wrapper<T: Shared> {
    inner: Arc<RwLock<T, InvPred>>,
}

/// A guard for shared, read-only access to a wrapped value.
///
/// Release it with [`ReadGuard::release`]; the lock stays held until then.
pub struct ReadGuard<'a, T: Shared> {
    handle: ReadHandle<'a, T, InvPred>,
}

/// A guard for exclusive access to a wrapped value.
///
/// [`Wrapper::write`] hands the stored value out alongside this guard;
/// [`WriteGuard::release`] puts a (possibly updated) value back and lets
/// other guards be granted again.
pub struct WriteGuard<'a, T: Shared> {
    handle: WriteHandle<'a, T, InvPred>,
}

/// Relies on `Arc`'s `Deref`: borrows the shared allocation.
#[verifier::external_body]
fn arc_borrow<'a, T>(a: &'a Arc<T>) -> (res: &'a T)
    ensures
        *res == **a,
{
    &**a
}

/// Relies on `Arc::clone`: returns a new handle to the same allocation.
#[verifier::external_body]
fn arc_clone<T>(a: &Arc<T>) -> (res: Arc<T>)
    ensures
        res == *a,
{
    Arc::clone(a)
}

impl<T: Shared> Wrapper<T> {
    /// Takes ownership of `value` and puts it behind a fresh lock.
    pub fn new(value: T) -> Self
        requires
            value.inv(),
    {
        Wrapper { inner: Arc::new(RwLock::new(value, Ghost(InvPred))) }
    }

    /// Acquires shared read access; waits while a writer holds the lock.
    pub fn read<'a>(&'a self) -> (guard: ReadGuard<'a, T>)
        ensures
            guard.value().inv(),
    {
        let lock = arc_borrow(&self.inner);
        let handle = lock.acquire_read();
        ReadGuard { handle }
    }

    /// Acquires exclusive write access; waits while any guard is
    /// outstanding. Hands back the stored value together with the guard
    /// that must be used to store a value again.
    pub fn write<'a>(&'a self) -> (ret: (T, WriteGuard<'a, T>))
        ensures
            ret.0.inv(),
    {
        let lock = arc_borrow(&self.inner);
        let (value, handle) = lock.acquire_write();
        (value, WriteGuard { handle })
    }
}

impl<T: Shared> Clone for Wrapper<T> {
    /// A new handle sharing the same lock and value as `self`.
    fn clone(&self) -> (res: Self)
        ensures
            res == *self,
    {
        Wrapper { inner: arc_clone(&self.inner) }
    }
}

impl<'a, T: Shared> ReadGuard<'a, T> {
    /// The value this guard grants access to.
    pub closed spec fn value(&self) -> T {
        self.handle.view()
    }

    /// Borrows the guarded value.
    pub fn borrow<'b>(&'b self) -> (val: &'b T)
        ensures
            *val == self.value(),
    {
        self.handle.borrow()
    }

    /// Releases the shared lock.
    pub fn release(self) {
        self.handle.release_read();
    }
}

impl<'a, T: Shared> WriteGuard<'a, T> {
    /// Stores `value` behind the lock and releases exclusive access.
    pub fn release(self, value: T)
        requires
            value.inv(),
    {
        self.handle.release_write(value);
    }
}

} // verus!
