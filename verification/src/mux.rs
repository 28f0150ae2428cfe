//! Routing with middleware run around the handler.
use vstd::prelude::*;

use crate::router::{route, Route, RouteMatch, RouteTable};

verus! {

/// Routes requests by path and runs the middleware, in the order applied,
/// before and after the handler. Without a handler, the response gets
/// status 404.
pub struct UnsafeMux<H, M> {
    middleware: Vec<M>,
    map: RouteTable<H>,
    not_found: Option<H>,
}

impl<H, M> UnsafeMux<H, M> {
    /// The handler of each pattern.
    pub closed spec fn routes(&self) -> Map<Seq<char>, H> {
        self.map@
    }

    /// The middleware, in the order applied.
    pub closed spec fn layers(&self) -> Seq<M> {
        self.middleware@
    }

    /// The handler for paths without one of their own.
    pub closed spec fn fallback(&self) -> Option<H> {
        self.not_found
    }

    pub closed spec fn wf(&self) -> bool {
        self.map.wf()
    }

    pub fn new() -> (m: Self)
        ensures
            m.wf(),
            m.routes() == Map::<Seq<char>, H>::empty(),
            m.layers() == Seq::<M>::empty(),
            m.fallback() is None,
    {
        UnsafeMux { middleware: Vec::new(), map: RouteTable::new(), not_found: None }
    }

    /// Registers `handler` for `pattern`, in place of any earlier one.
    pub fn register(&mut self, pattern: &str, handler: H)
        requires
            old(self).wf(),
        ensures
            final(self).wf(),
            final(self).routes() == old(self).routes().insert(pattern@, handler),
            final(self).layers() == old(self).layers(),
            final(self).fallback() == old(self).fallback(),
    {
        self.map.insert(pattern, handler);
    }

    /// Adds a middleware after those applied before.
    pub fn apply(&mut self, middleware: M)
        ensures
            final(self).wf() == old(self).wf(),
            final(self).routes() == old(self).routes(),
            final(self).layers() == old(self).layers().push(middleware),
            final(self).fallback() == old(self).fallback(),
    {
        self.middleware.push(middleware);
    }

    /// The middleware, in the order applied.
    pub fn middleware(&self) -> (r: &Vec<M>)
        ensures
            r@ == self.layers(),
    {
        &self.middleware
    }

    /// The handler for `path`: `Some(Some(h))` for a registered one,
    /// `Some(fallback)` when there is none, `None` when the search does not
    /// end (see [`route`]).
    pub fn handler_for(&self, path: &str) -> (r: Option<Option<&H>>)
        requires
            self.wf(),
        ensures
            match route(self.routes().dom(), path@) {
                Route::Handler(k) => r matches Some(Some(h)) && *h == self.routes()[k],
                Route::NotFound => r matches Some(f) && match (f, self.fallback()) {
                    (Some(a), Some(b)) => *a == b,
                    (None, None) => true,
                    _ => false,
                },
                Route::Stuck => r is None,
            },
    {
        match self.map.lookup(path) {
            RouteMatch::Handler(i) => Some(Some(self.map.at(i))),
            RouteMatch::NotFound => Some(self.not_found.as_ref()),
            RouteMatch::Stuck => None,
        }
    }
}

/// The first middleware layer to run out of `n`: the first, if any.
pub fn first_layer(n: usize) -> (r: Option<usize>)
    ensures
        r == (if n > 0 {
            Some(0usize)
        } else {
            None::<usize>
        }),
{
    if n > 0 {
        Some(0)
    } else {
        None
    }
}

/// The layer to run after layer `i` out of `n`: none once a layer asked to
/// stop or the last one ran, else the next one.
pub fn next_layer(i: usize, n: usize, stopped: bool) -> (r: Option<usize>)
    ensures
        r == (if stopped || i + 1 >= n {
            None::<usize>
        } else {
            Some((i + 1) as usize)
        }),
{
    if stopped || i >= n || n - i <= 1 {
        None
    } else {
        Some(i + 1)
    }
}

} // verus!
