//! A service that passes connections to upstream servers.
use vstd::prelude::*;

verus! {

/// Passes connections upstream.
pub struct UpstreamService<C: 'static>(&'static C);

impl<C: 'static> UpstreamService<C> {
    /// The configuration the service was made with.
    pub closed spec fn cfg(&self) -> &'static C {
        self.0
    }

    pub fn new(cfg: &'static C) -> (s: Self)
        ensures
            s.cfg() == cfg,
    {
        UpstreamService(cfg)
    }
}

} // verus!
