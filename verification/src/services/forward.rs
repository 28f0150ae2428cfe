//! A service that forwards connections to another address.
use vstd::prelude::*;

verus! {

/// Forwards connections.
pub struct ForwardService<C: 'static>(&'static C);

impl<C: 'static> ForwardService<C> {
    /// The configuration the service was made with.
    pub closed spec fn cfg(&self) -> &'static C {
        self.0
    }

    pub fn new(cfg: &'static C) -> (s: Self)
        ensures
            s.cfg() == cfg,
    {
        ForwardService(cfg)
    }
}

} // verus!
