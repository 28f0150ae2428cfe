//! A counter of live connections that counts itself while it exists.
use std::sync::atomic::AtomicI64;
use std::sync::atomic::Ordering;
use std::sync::Arc;
use vstd::prelude::*;

verus! {

/// Counts one while it exists: made by adding one to the shared counter,
/// dropped by taking it off again.
pub struct AutoCounter(Arc<AtomicI64>);

impl AutoCounter {
    /// The shared counter.
    pub closed spec fn counter(&self) -> Arc<AtomicI64> {
        self.0
    }

    pub fn new(v: Arc<AtomicI64>) -> (c: Self)
        ensures
            c.counter() == v,
    {
        v.fetch_add(1, Ordering::AcqRel);
        AutoCounter(v)
    }
}

impl Drop for AutoCounter {
    /// Takes one off the shared counter.
    ///
    /// Trusted: calls `AtomicI64::fetch_sub(1, Release)`.
    #[verifier::external_body]
    fn drop(&mut self)
        opens_invariants none
        no_unwind
    {
        self.0.fetch_sub(1, Ordering::Release);
    }
}

} // verus!
