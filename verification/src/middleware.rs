//! Middleware made of handlers run before and after a request's handler.
use vstd::prelude::*;

verus! {

/// Runs `pre` before the handler and `post` after it, each when present.
pub struct FuncMiddleware<H> {
    pre: Option<H>,
    post: Option<H>,
}

impl<H> FuncMiddleware<H> {
    /// The handler run first.
    pub closed spec fn before(&self) -> Option<H> {
        self.pre
    }

    /// The handler run last.
    pub closed spec fn after(&self) -> Option<H> {
        self.post
    }

    pub fn new(pre: Option<H>, post: Option<H>) -> (m: Box<Self>)
        ensures
            m.before() == pre,
            m.after() == post,
    {
        Box::new(FuncMiddleware { pre, post })
    }

    /// The handler run first.
    pub fn pre(&self) -> (r: Option<&H>)
        ensures
            match (r, self.before()) {
                (Some(a), Some(b)) => *a == b,
                (None, None) => true,
                _ => false,
            },
    {
        self.pre.as_ref()
    }

    /// The handler run last.
    pub fn post(&self) -> (r: Option<&H>)
        ensures
            match (r, self.after()) {
                (Some(a), Some(b)) => *a == b,
                (None, None) => true,
                _ => false,
            },
    {
        self.post.as_ref()
    }
}

} // verus!
