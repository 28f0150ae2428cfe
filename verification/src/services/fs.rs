//! A service for serving files; it answers without reading the request.
use vstd::prelude::*;

use crate::message::Message;
use crate::protocols::Protocol;

verus! {

/// Serves files under a root.
pub struct FsService<C: 'static> {
    cfg: &'static C,
}

impl<C: 'static> FsService<C> {
    /// The configuration the service was made with.
    pub closed spec fn cfg(&self) -> &'static C {
        self.cfg
    }

    pub fn new(cfg: &'static C) -> (s: Self)
        ensures
            s.cfg() == cfg,
    {
        FsService { cfg }
    }

    pub fn config(&self) -> (c: &'static C)
        ensures
            c == self.cfg(),
    {
        self.cfg
    }

    /// Keeps the connection open and leaves both messages as they are.
    pub fn http(&self, req: &Message, resp: &mut Message) -> (p: Protocol)
        ensures
            *final(resp) == *old(resp),
            p == (Protocol::Current { keep_alive: true }),
    {
        Protocol::Current { keep_alive: true }
    }
}

} // verus!
