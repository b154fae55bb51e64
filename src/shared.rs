use std::sync::Arc;
use vstd::prelude::*;

verus! {

/// Relies on `Arc::clone`: a second handle to the same value.
#[verifier::external_body]
fn share<T>(a: &Arc<T>) -> (r: Arc<T>)
    ensures
        r == *a,
{
    Arc::clone(a)
}

/// The owner of a value that background work reads through handles
/// (`Ptr`), which keep it alive for as long as they are held.
pub struct BoxPtr<T> {
    inner: Arc<T>,
}

impl<T> BoxPtr<T> {
    /// The value held.
    pub closed spec fn value(&self) -> T {
        *self.inner
    }

    /// Takes ownership of `value`.
    pub fn new(value: T) -> (r: BoxPtr<T>)
        ensures
            r.value() == value,
    {
        BoxPtr { inner: Arc::new(value) }
    }

    /// A handle to the value.
    pub fn ptr(&self) -> (r: Ptr<T>)
        ensures
            r.value() == self.value(),
    {
        Ptr::new(share(&self.inner))
    }

    /// The value held.
    pub fn as_ref(&self) -> (r: &T)
        ensures
            *r == self.value(),
    {
        &*self.inner
    }
}

/// A handle to a value owned by a `BoxPtr`.
pub struct Ptr<T> {
    inner: Arc<T>,
}

impl<T> Ptr<T> {
    /// The value behind the handle.
    pub closed spec fn value(&self) -> T {
        *self.inner
    }

    /// A handle over a shared value.
    pub fn new(ptr: Arc<T>) -> (r: Ptr<T>)
        ensures
            r.value() == *ptr,
    {
        Ptr { inner: ptr }
    }

    /// Another handle to the same value.
    pub fn share(&self) -> (r: Ptr<T>)
        ensures
            r.value() == self.value(),
    {
        Ptr { inner: share(&self.inner) }
    }

    /// The value behind the handle.
    pub fn as_ref(&self) -> (r: &T)
        ensures
            *r == self.value(),
    {
        &*self.inner
    }
}

/// A value carried to another task as it is.
pub struct SendT<T>(pub T);

} // verus!
