use std::sync::Arc;
use vstd::prelude::*;

verus! {

/// A callback that receives event values of type `T`.
///
/// Implementors use interior mutability for any state they update. A
/// failure is reported as a message; it never stops delivery to the other
/// listeners of the same emission.
pub trait Handler<T>: Send + Sync {
    /// Whether `r` is an outcome this handler gives when handed
    /// `event_arg`. Each implementation defines it as its own behaviour.
    spec fn handled(&self, event_arg: T, r: Result<(), String>) -> bool;

    fn handle(&self, event_arg: T) -> (r: Result<(), String>)
        ensures
            self.handled(event_arg, r),
    ;
}

/// Relies on `Arc::clone`: the result points to the same allocation.
#[verifier::external_body]
pub(crate) fn share<A>(a: &Arc<A>) -> (r: Arc<A>)
    ensures
        r == *a,
{
    Arc::clone(a)
}

/// A registered callback. Cloning is cheap and yields a handle to the same
/// callback, so a clone taken under a lock can be invoked after the lock is
/// released.
pub struct Listener<H> {
    callback: Arc<H>,
}

impl<H> Listener<H> {
    /// The callback this listener invokes.
    pub closed spec fn handler(&self) -> H {
        *self.callback
    }

    pub fn new(callback: H) -> (r: Self)
        ensures
            r.handler() == callback,
    {
        Listener { callback: Arc::new(callback) }
    }

    /// Invokes the callback once with `event_arg` and passes its outcome on.
    pub fn call<T>(&self, event_arg: T) -> (r: Result<(), String>)
        where H: Handler<T>,
        ensures
            self.handler().handled(event_arg, r),
    {
        self.callback.handle(event_arg)
    }
}

impl<H> Clone for Listener<H> {
    fn clone(&self) -> (r: Self)
        ensures
            r == *self,
    {
        Listener { callback: share(&self.callback) }
    }
}

} // verus!
