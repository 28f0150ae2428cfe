//! Routing a request path to the handler registered for it.
use vstd::prelude::*;

use crate::listmap::{assoc_map, keys_distinct, lemma_assoc_dom, lemma_assoc_index, lemma_assoc_push, lemma_assoc_update};
use crate::text::{chars_of, string_eq_chars, str_to_string};

verus! {

/// The position of the last `c` in `s`.
pub open spec fn last_char(s: Seq<char>, c: char) -> Option<int>
    decreases s.len(),
{
    if s.len() == 0 {
        None
    } else if s.last() == c {
        Some(s.len() - 1)
    } else {
        last_char(s.drop_last(), c)
    }
}

pub proof fn lemma_last_char(s: Seq<char>, c: char)
    ensures
        last_char(s, c) matches Some(i) ==> 0 <= i < s.len() && s[i] == c,
    decreases s.len(),
{
    if s.len() > 0 && s.last() != c {
        lemma_last_char(s.drop_last(), c);
    }
}

/// `path` cut just after its last `/`; unchanged without one.
pub open spec fn cut_after_last_slash(path: Seq<char>) -> Seq<char> {
    match last_char(path, '/') {
        Some(i) => path.take(i + 1),
        None => path,
    }
}

/// Where the search for a handler of `path` ends.
pub enum Route {
    /// At the handler registered for this pattern.
    Handler(Seq<char>),
    /// Without a handler.
    NotFound,
    /// Nowhere: the search repeats the same pattern for ever.
    Stuck,
}

/// The search for a handler: the path itself, then the path cut after its
/// last `/`, which is then cut to itself again. A pattern of one character
/// or an empty one that has no handler ends the search without one.
pub open spec fn route(keys: Set<Seq<char>>, path: Seq<char>) -> Route {
    if path.len() == 0 {
        Route::NotFound
    } else if keys.contains(path) {
        Route::Handler(path)
    } else if path.len() == 1 {
        Route::NotFound
    } else {
        let q = cut_after_last_slash(path);
        if q == path {
            Route::Stuck
        } else if keys.contains(q) {
            Route::Handler(q)
        } else if q.len() == 1 {
            Route::NotFound
        } else {
            Route::Stuck
        }
    }
}

/// The outcome of looking a path up.
#[derive(Debug, Clone, Copy, PartialEq, Eq, Structural)]
pub enum RouteMatch {
    /// The handler at this position of the table.
    Handler(usize),
    NotFound,
    Stuck,
}

/// Handlers by pattern, in the order the patterns were first registered.
pub struct RouteTable<H> {
    entries: Vec<(String, H)>,
}

pub open spec fn entry_view<H>(e: (String, H)) -> (Seq<char>, H) {
    (e.0@, e.1)
}

impl<H> RouteTable<H> {
    /// The pairs of pattern and handler, in order.
    pub closed spec fn pairs(&self) -> Seq<(Seq<char>, H)> {
        self.entries@.map_values(|e: (String, H)| entry_view(e))
    }

    pub closed spec fn wf(&self) -> bool {
        keys_distinct(self.pairs())
    }

    /// The handler of each pattern.
    pub open spec fn view(&self) -> Map<Seq<char>, H> {
        assoc_map(self.pairs())
    }

    pub fn new() -> (t: Self)
        ensures
            t.wf(),
            t@ == Map::<Seq<char>, H>::empty(),
            t.pairs().len() == 0,
    {
        let t = RouteTable { entries: Vec::new() };
        assert(t.pairs() =~= Seq::<(Seq<char>, H)>::empty());
        t
    }

    pub fn len(&self) -> (n: usize)
        ensures
            n == self.pairs().len(),
    {
        self.entries.len()
    }

    /// The position of `k`.
    pub fn find(&self, k: &[char]) -> (r: Option<usize>)
        requires
            self.wf(),
        ensures
            match r {
                Some(i) => i < self.pairs().len() && self.pairs()[i as int].0 == k@,
                None => !self@.dom().contains(k@),
            },
    {
        let mut i: usize = 0;
        while i < self.entries.len()
            invariant
                i <= self.entries.len(),
                forall|j: int| 0 <= j < i ==> #[trigger] self.pairs()[j].0 != k@,
            decreases self.entries.len() - i,
        {
            assert(self.pairs()[i as int] == entry_view(self.entries@[i as int]));
            if string_eq_chars(&self.entries[i].0, k) {
                return Some(i);
            }
            i += 1;
        }
        proof {
            lemma_assoc_dom(self.pairs(), k@);
        }
        None
    }

    /// The handler at position `i`.
    pub fn at(&self, i: usize) -> (h: &H)
        requires
            i < self.pairs().len(),
        ensures
            *h == self.pairs()[i as int].1,
    {
        assert(self.pairs()[i as int] == entry_view(self.entries@[i as int]));
        &self.entries[i].1
    }

    /// Registers `handler` for `pattern`, in place of any earlier one.
    pub fn insert(&mut self, pattern: &str, handler: H)
        requires
            old(self).wf(),
        ensures
            final(self).wf(),
            final(self)@ == old(self)@.insert(pattern@, handler),
    {
        let kc = chars_of(pattern);
        match self.find(kc.as_slice()) {
            Some(i) => {
                let ghost p = self.pairs();
                proof {
                    lemma_assoc_update(p, i as int, handler);
                }
                self.entries.set(i, (str_to_string(pattern), handler));
                assert(self.pairs() =~= p.update(i as int, (p[i as int].0, handler)));
            },
            None => {
                let ghost p = self.pairs();
                proof {
                    lemma_assoc_push(p, pattern@, handler);
                }
                self.entries.push((str_to_string(pattern), handler));
                assert(self.pairs() =~= p.push((pattern@, handler)));
            },
        }
    }

    /// Where the search for a handler of `path` ends; see [`route`].
    pub fn lookup(&self, path: &str) -> (r: RouteMatch)
        requires
            self.wf(),
        ensures
            match route(self@.dom(), path@) {
                Route::Handler(k) => r matches RouteMatch::Handler(i) && i < self.pairs().len()
                    && self.pairs()[i as int].0 == k && self@[k] == self.pairs()[i as int].1,
                Route::NotFound => r == RouteMatch::NotFound,
                Route::Stuck => r == RouteMatch::Stuck,
            },
    {
        let p = chars_of(path);
        if p.len() == 0 {
            return RouteMatch::NotFound;
        }
        match self.find(p.as_slice()) {
            Some(i) => {
                proof {
                    lemma_assoc_index(self.pairs(), i as int);
                }
                return RouteMatch::Handler(i);
            },
            None => {},
        }
        if p.len() == 1 {
            return RouteMatch::NotFound;
        }
        let q = cut_after_last_slash_exec(p.as_slice());
        proof {
            lemma_last_char(p@, '/');
        }
        if q.len() == p.len() {
            assert(q@ =~= p@);
            return RouteMatch::Stuck;
        }
        assert(q@ != p@);
        match self.find(q.as_slice()) {
            Some(i) => {
                proof {
                    lemma_assoc_index(self.pairs(), i as int);
                }
                RouteMatch::Handler(i)
            },
            None => {
                if q.len() == 1 {
                    RouteMatch::NotFound
                } else {
                    RouteMatch::Stuck
                }
            },
        }
    }
}

/// `path` cut just after its last `/`; see [`cut_after_last_slash`].
pub fn cut_after_last_slash_exec(path: &[char]) -> (r: Vec<char>)
    ensures
        r@ == cut_after_last_slash(path@),
{
    let mut j: usize = path.len();
    assert(path@.take(path.len() as int) =~= path@);
    while j > 0
        invariant
            j <= path.len(),
            last_char(path@, '/') == last_char(path@.take(j as int), '/'),
        decreases j,
    {
        let ghost t = path@.take(j as int);
        assert(t.drop_last() =~= path@.take(j - 1));
        if path[j - 1] == '/' {
            let mut r: Vec<char> = Vec::new();
            let mut i: usize = 0;
            while i < j
                invariant
                    i <= j <= path.len(),
                    r@ == path@.take(i as int),
                decreases j - i,
            {
                r.push(path[i]);
                assert(path@.take(i + 1) =~= path@.take(i as int).push(path@[i as int]));
                i += 1;
            }
            return r;
        }
        j -= 1;
    }
    assert(path@.take(0) =~= Seq::<char>::empty());
    let mut r: Vec<char> = Vec::new();
    let mut i: usize = 0;
    while i < path.len()
        invariant
            i <= path.len(),
            r@ == path@.take(i as int),
        decreases path.len() - i,
    {
        r.push(path[i]);
        assert(path@.take(i + 1) =~= path@.take(i as int).push(path@[i as int]));
        i += 1;
    }
    assert(path@.take(path.len() as int) =~= path@);
    r
}

/// Routes requests by path. Without a handler, the response gets status 404.
pub struct Mux<H> {
    map: RouteTable<H>,
    not_found: Option<H>,
}

impl<H> Mux<H> {
    /// The handler of each pattern.
    pub closed spec fn routes(&self) -> Map<Seq<char>, H> {
        self.map@
    }

    /// The handler for paths without one of their own.
    pub closed spec fn fallback(&self) -> Option<H> {
        self.not_found
    }

    pub closed spec fn wf(&self) -> bool {
        self.map.wf()
    }

    pub fn new() -> (m: Self)
        ensures
            m.wf(),
            m.routes() == Map::<Seq<char>, H>::empty(),
            m.fallback() is None,
    {
        Mux { map: RouteTable::new(), not_found: None }
    }

    /// Registers `handler` for `pattern`, in place of any earlier one.
    pub fn register(&mut self, pattern: &str, handler: H)
        requires
            old(self).wf(),
        ensures
            final(self).wf(),
            final(self).routes() == old(self).routes().insert(pattern@, handler),
            final(self).fallback() == old(self).fallback(),
    {
        self.map.insert(pattern, handler);
    }

    /// The handler for `path`: `Some(Some(h))` for a registered one,
    /// `Some(fallback)` when there is none, `None` when the search does not
    /// end (see [`route`]).
    pub fn handler_for(&self, path: &str) -> (r: Option<Option<&H>>)
        requires
            self.wf(),
        ensures
            match route(self.routes().dom(), path@) {
                Route::Handler(k) => r matches Some(Some(h)) && *h == self.routes()[k],
                Route::NotFound => r matches Some(f) && match (f, self.fallback()) {
                    (Some(a), Some(b)) => *a == b,
                    (None, None) => true,
                    _ => false,
                },
                Route::Stuck => r is None,
            },
    {
        match self.map.lookup(path) {
            RouteMatch::Handler(i) => Some(Some(self.map.at(i))),
            RouteMatch::NotFound => Some(self.not_found.as_ref()),
            RouteMatch::Stuck => None,
        }
    }
}

/// A registered pattern routes to its own handler.
pub proof fn law_register_then_route<H>(routes: Map<Seq<char>, H>, pattern: Seq<char>, h: H)
    requires
        pattern.len() > 0,
    ensures
        route(routes.insert(pattern, h).dom(), pattern) == Route::Handler(pattern),
        routes.insert(pattern, h)[pattern] == h,
{
}

} // verus!
