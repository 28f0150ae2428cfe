//! `ListMap`: a map from strings to lists of strings, kept as a vector of
//! `(key, values)` pairs with distinct keys.
//!
//! It stands where a `HashMap<String, Vec<String>>` would: `insert` replaces
//! the values of an existing key, and the abstract view is a `Map`.
use vstd::prelude::*;

use crate::text::{chars_of, str_to_string, string_eq_chars};

verus! {

/// The map that a list of pairs denotes when a later pair overrides an earlier
/// one with the same key (the behaviour of inserting them in order into a map).
pub open spec fn assoc_map<K, V>(p: Seq<(K, V)>) -> Map<K, V>
    decreases p.len(),
{
    if p.len() == 0 {
        Map::empty()
    } else {
        assoc_map(p.drop_last()).insert(p.last().0, p.last().1)
    }
}

pub open spec fn keys_distinct<K, V>(p: Seq<(K, V)>) -> bool {
    forall|i: int, j: int| 0 <= i < j < p.len() ==> #[trigger] p[i].0 != #[trigger] p[j].0
}

pub proof fn lemma_assoc_dom<K, V>(p: Seq<(K, V)>, k: K)
    ensures
        assoc_map(p).dom().contains(k) <==> exists|i: int| 0 <= i < p.len() && #[trigger] p[i].0
            == k,
    decreases p.len(),
{
    if p.len() > 0 {
        lemma_assoc_dom(p.drop_last(), k);
        if assoc_map(p).dom().contains(k) {
            if k == p.last().0 {
                assert(p[p.len() - 1].0 == k);
            } else {
                let i = choose|i: int| 0 <= i < p.drop_last().len() && #[trigger] p.drop_last()[i].0 == k;
                assert(p[i].0 == k);
            }
        }
        if exists|i: int| 0 <= i < p.len() && #[trigger] p[i].0 == k {
            let i = choose|i: int| 0 <= i < p.len() && #[trigger] p[i].0 == k;
            if i < p.len() - 1 {
                assert(p.drop_last()[i].0 == k);
            }
        }
    }
}

pub proof fn lemma_assoc_index<K, V>(p: Seq<(K, V)>, i: int)
    requires
        keys_distinct(p),
        0 <= i < p.len(),
    ensures
        assoc_map(p).dom().contains(p[i].0),
        assoc_map(p)[p[i].0] == p[i].1,
    decreases p.len(),
{
    if i < p.len() - 1 {
        let q = p.drop_last();
        assert(q[i] == p[i]);
        assert(p[i].0 != p[p.len() - 1].0);
        lemma_assoc_index(q, i);
    }
}

pub proof fn lemma_assoc_update<K, V>(p: Seq<(K, V)>, i: int, v: V)
    requires
        keys_distinct(p),
        0 <= i < p.len(),
    ensures
        assoc_map(p.update(i, (p[i].0, v))) =~= assoc_map(p).insert(p[i].0, v),
        keys_distinct(p.update(i, (p[i].0, v))),
    decreases p.len(),
{
    let q = p.update(i, (p[i].0, v));
    assert forall|a: int, b: int| 0 <= a < b < q.len() implies #[trigger] q[a].0 != #[trigger] q[b].0 by {
        assert(q[a].0 == p[a].0 && q[b].0 == p[b].0);
    }
    if i == p.len() - 1 {
        assert(q.drop_last() =~= p.drop_last());
    } else {
        let pd = p.drop_last();
        assert(q.drop_last() =~= pd.update(i, (pd[i].0, v)));
        assert(pd[i] == p[i]);
        assert(p[i].0 != p[p.len() - 1].0);
        lemma_assoc_update(pd, i, v);
    }
}

pub proof fn lemma_assoc_remove<K, V>(p: Seq<(K, V)>, i: int)
    requires
        keys_distinct(p),
        0 <= i < p.len(),
    ensures
        assoc_map(p.remove(i)) =~= assoc_map(p).remove(p[i].0),
        keys_distinct(p.remove(i)),
    decreases p.len(),
{
    let q = p.remove(i);
    assert forall|a: int, b: int| 0 <= a < b < q.len() implies #[trigger] q[a].0 != #[trigger] q[b].0 by {
        let a2 = if a < i { a } else { a + 1 };
        let b2 = if b < i { b } else { b + 1 };
        assert(q[a] == p[a2] && q[b] == p[b2]);
    }
    let pd = p.drop_last();
    if i == p.len() - 1 {
        assert(q =~= pd);
        lemma_assoc_dom(pd, p[i].0);
        if assoc_map(pd).dom().contains(p[i].0) {
            let j = choose|j: int| 0 <= j < pd.len() && #[trigger] pd[j].0 == p[i].0;
            assert(p[j].0 == p[i].0);
        }
    } else {
        assert(q.drop_last() =~= pd.remove(i));
        assert(q.last() == p.last());
        assert(pd[i] == p[i]);
        assert(p[i].0 != p[p.len() - 1].0);
        assert forall|a: int, b: int| 0 <= a < b < pd.len() implies #[trigger] pd[a].0
            != #[trigger] pd[b].0 by {
            assert(pd[a] == p[a] && pd[b] == p[b]);
        }
        lemma_assoc_remove(pd, i);
    }
}

pub proof fn lemma_assoc_push<K, V>(p: Seq<(K, V)>, k: K, v: V)
    requires
        keys_distinct(p),
        !assoc_map(p).dom().contains(k),
    ensures
        assoc_map(p.push((k, v))) == assoc_map(p).insert(k, v),
        keys_distinct(p.push((k, v))),
{
    let q = p.push((k, v));
    assert(q.drop_last() =~= p);
    lemma_assoc_dom(p, k);
    assert forall|a: int, b: int| 0 <= a < b < q.len() implies #[trigger] q[a].0 != #[trigger] q[b].0 by {
        if b == p.len() {
            assert(q[a] == p[a]);
        } else {
            assert(q[a] == p[a] && q[b] == p[b]);
        }
    }
}

pub proof fn lemma_assoc_len<K, V>(p: Seq<(K, V)>)
    requires
        keys_distinct(p),
    ensures
        assoc_map(p).dom().finite(),
        assoc_map(p).dom().len() == p.len(),
    decreases p.len(),
{
    if p.len() > 0 {
        let pd = p.drop_last();
        assert forall|a: int, b: int| 0 <= a < b < pd.len() implies #[trigger] pd[a].0
            != #[trigger] pd[b].0 by {
            assert(pd[a] == p[a] && pd[b] == p[b]);
        }
        lemma_assoc_len(pd);
        lemma_assoc_dom(pd, p.last().0);
        if assoc_map(pd).dom().contains(p.last().0) {
            let j = choose|j: int| 0 <= j < pd.len() && #[trigger] pd[j].0 == p.last().0;
            assert(p[j].0 == p[p.len() - 1].0);
        }
    }
}

/// A copy of a list of strings.
pub fn clone_strings(v: &Vec<String>) -> (r: Vec<String>)
    ensures
        r.deep_view() == v.deep_view(),
{
    let mut r: Vec<String> = Vec::new();
    let mut i: usize = 0;
    while i < v.len()
        invariant
            i <= v.len(),
            r.deep_view() == v.deep_view().take(i as int),
        decreases v.len() - i,
    {
        let ghost before = r.deep_view();
        r.push(v[i].clone());
        assert(r.deep_view() =~= before.push(v@[i as int]@));
        assert(v.deep_view().take(i + 1) =~= v.deep_view().take(i as int).push(v@[i as int]@));
        i += 1;
    }
    assert(v.deep_view().take(v.len() as int) =~= v.deep_view());
    r
}

/// The view of one stored pair.
pub open spec fn pair_view(e: (String, Vec<String>)) -> (Seq<char>, Seq<Seq<char>>) {
    (e.0@, e.1.deep_view())
}

/// A visit in order that stopped at entry `n`: `visited(j, true)` for each
/// entry before `n`; `visited(n, false)` when `n` is an entry; the entries
/// after `n` as they were.
pub open spec fn visits_upto(
    before: Seq<(Seq<char>, Seq<Seq<char>>)>,
    after: Seq<(Seq<char>, Seq<Seq<char>>)>,
    n: int,
    visited: spec_fn(int, bool) -> bool,
) -> bool {
    &&& 0 <= n <= before.len()
    &&& forall|j: int| 0 <= j < n ==> #[trigger] visited(j, true)
    &&& n < before.len() ==> visited(n, false)
    &&& forall|j: int| n < j < before.len() ==> #[trigger] after[j] == before[j]
}

/// A map from strings to lists of strings, kept as a list of pairs with
/// distinct keys, in the order in which the keys were first inserted.
#[derive(Debug)]
pub struct ListMap {
    entries: Vec<(String, Vec<String>)>,
}

impl ListMap {
    /// The stored pairs, in order.
    pub closed spec fn pairs(&self) -> Seq<(Seq<char>, Seq<Seq<char>>)> {
        self.entries@.map_values(|e: (String, Vec<String>)| pair_view(e))
    }

    pub closed spec fn wf(&self) -> bool {
        keys_distinct(self.pairs())
    }

    pub open spec fn view(&self) -> Map<Seq<char>, Seq<Seq<char>>> {
        assoc_map(self.pairs())
    }

    proof fn lemma_view_facts(&self)
        requires
            self.wf(),
        ensures
            self@.dom().finite(),
            self@.dom().len() == self.pairs().len(),
            forall|i: int|
                0 <= i < self.pairs().len() ==> self@.dom().contains(#[trigger] self.pairs()[i].0)
                    && self@[self.pairs()[i].0] == self.pairs()[i].1,
    {
        lemma_assoc_len(self.pairs());
        assert forall|i: int| 0 <= i < self.pairs().len() implies self@.dom().contains(
            #[trigger] self.pairs()[i].0,
        ) && self@[self.pairs()[i].0] == self.pairs()[i].1 by {
            lemma_assoc_index(self.pairs(), i);
        }
    }

    pub fn new() -> (m: Self)
        ensures
            m.wf(),
            m@ == Map::<Seq<char>, Seq<Seq<char>>>::empty(),
            m.pairs().len() == 0,
    {
        let m = ListMap { entries: Vec::new() };
        assert(m.pairs() =~= Seq::<(Seq<char>, Seq<Seq<char>>)>::empty());
        m
    }

    /// The stored pairs, in order.
    pub fn entries(&self) -> (r: &Vec<(String, Vec<String>)>)
        ensures
            r@.map_values(|e: (String, Vec<String>)| pair_view(e)) == self.pairs(),
    {
        &self.entries
    }

    /// Number of keys.
    pub fn len(&self) -> (n: usize)
        requires
            self.wf(),
        ensures
            n == self@.dom().len(),
    {
        proof {
            self.lemma_view_facts();
        }
        self.entries.len()
    }

    /// Position of `k` among the pairs.
    pub fn find(&self, k: &[char]) -> (r: Option<usize>)
        requires
            self.wf(),
        ensures
            match r {
                Some(i) => i < self.pairs().len() && self.pairs()[i as int].0 == k@,
                None => !self@.dom().contains(k@),
            },
    {
        let mut i: usize = 0;
        while i < self.entries.len()
            invariant
                i <= self.entries.len(),
                forall|j: int| 0 <= j < i ==> self.pairs()[j].0 != k@,
            decreases self.entries.len() - i,
        {
            if string_eq_chars(&self.entries[i].0, k) {
                return Some(i);
            }
            i += 1;
        }
        proof {
            lemma_assoc_dom(self.pairs(), k@);
        }
        None
    }

    /// The values of `k` (`HashMap::get`).
    pub fn get(&self, k: &[char]) -> (r: Option<&Vec<String>>)
        requires
            self.wf(),
        ensures
            r is Some <==> self@.dom().contains(k@),
            r matches Some(vs) ==> vs.deep_view() == self@[k@],
    {
        proof {
            self.lemma_view_facts();
        }
        match self.find(k) {
            Some(i) => {
                assert(self.pairs()[i as int] == pair_view(self.entries@[i as int]));
                Some(&self.entries[i].1)
            },
            None => None,
        }
    }

    /// The values of `k`, for changing them in place (`HashMap::get_mut`).
    pub fn get_mut(&mut self, k: &[char]) -> (r: Option<&mut Vec<String>>)
        requires
            old(self).wf(),
        ensures
            r is Some <==> old(self)@.dom().contains(k@),
            r matches Some(vs) ==> vs.deep_view() == old(self)@[k@] && final(self).wf()
                && final(self)@ == old(self)@.insert(k@, final(vs).deep_view()),
            r is None ==> *final(self) == *old(self),
    {
        proof {
            self.lemma_view_facts();
        }
        match self.find(k) {
            Some(i) => {
                let ghost p = self.pairs();
                let ghost e = self.entries@;
                assert(p[i as int] == pair_view(self.entries@[i as int]));
                proof {
                    assert forall|nv: Vec<String>| #![trigger e.update(i as int, (e[i as int].0, nv))]
                        keys_distinct(
                            e.update(i as int, (e[i as int].0, nv)).map_values(
                                |x: (String, Vec<String>)| pair_view(x),
                            ),
                        ) && assoc_map(
                            e.update(i as int, (e[i as int].0, nv)).map_values(
                                |x: (String, Vec<String>)| pair_view(x),
                            ),
                        ) == assoc_map(p).insert(k@, nv.deep_view()) by {
                        lemma_assoc_update(p, i as int, nv.deep_view());
                        assert(e.update(i as int, (e[i as int].0, nv)).map_values(
                            |x: (String, Vec<String>)| pair_view(x),
                        ) =~= p.update(i as int, (p[i as int].0, nv.deep_view())));
                    }
                }
                let r = &mut self.entries[i].1;
                Some(r)
            },
            None => None,
        }
    }

    /// Whether `k` is a key (`HashMap::contains_key`).
    pub fn contains_key(&self, k: &[char]) -> (r: bool)
        requires
            self.wf(),
        ensures
            r == self@.dom().contains(k@),
    {
        proof {
            self.lemma_view_facts();
        }
        self.find(k).is_some()
    }

    /// Replaces the values stored at position `i`.
    fn replace_values(&mut self, i: usize, vs: Vec<String>)
        requires
            old(self).wf(),
            i < old(self).pairs().len(),
        ensures
            final(self).wf(),
            final(self)@ == old(self)@.insert(old(self).pairs()[i as int].0, vs.deep_view()),
            final(self).pairs() == old(self).pairs().update(
                i as int,
                (old(self).pairs()[i as int].0, vs.deep_view()),
            ),
    {
        let ghost p = self.pairs();
        let mut vs = vs;
        let ghost nv = vs.deep_view();
        std::mem::swap(&mut vs, &mut self.entries[i].1);
        proof {
            assert(self.pairs() =~= p.update(i as int, (p[i as int].0, nv)));
            lemma_assoc_update(p, i as int, nv);
        }
    }

    /// Sets the values of `k` (`HashMap::insert`): replaces them when `k` is
    /// present, otherwise adds `k` after the other keys.
    pub fn insert(&mut self, k: String, vs: Vec<String>)
        requires
            old(self).wf(),
        ensures
            final(self).wf(),
            final(self)@ == old(self)@.insert(k@, vs.deep_view()),
            old(self)@.dom().contains(k@) ==> final(self).pairs().len() == old(self).pairs().len(),
            !old(self)@.dom().contains(k@) ==> final(self).pairs() == old(self).pairs().push(
                (k@, vs.deep_view()),
            ),
    {
        let kc = chars_of(k.as_str());
        proof {
            self.lemma_view_facts();
        }
        match self.find(kc.as_slice()) {
            Some(i) => {
                self.replace_values(i, vs);
            },
            None => {
                let ghost p = self.pairs();
                let ghost nv = vs.deep_view();
                let ghost kv = k@;
                self.entries.push((k, vs));
                proof {
                    assert(self.pairs() =~= p.push((kv, nv)));
                    lemma_assoc_push(p, kv, nv);
                }
            },
        }
    }

    /// Adds `v` at the end of the values of `k`, or gives `k` the single value
    /// `v` when it is absent.
    pub fn push_value(&mut self, k: &str, v: &str)
        requires
            old(self).wf(),
        ensures
            final(self).wf(),
            final(self)@ == old(self)@.insert(
                k@,
                if old(self)@.dom().contains(k@) {
                    old(self)@[k@].push(v@)
                } else {
                    seq![v@]
                },
            ),
    {
        let kc = chars_of(k);
        proof {
            self.lemma_view_facts();
        }
        match self.find(kc.as_slice()) {
            Some(i) => {
                let ghost p = self.pairs();
                let ghost m = self@;
                let mut vs: Vec<String> = Vec::new();
                let ghost empty = vs.deep_view();
                assert(p[i as int] == pair_view(self.entries@[i as int]));
                std::mem::swap(&mut vs, &mut self.entries[i].1);
                proof {
                    assert(self.pairs() =~= p.update(i as int, (p[i as int].0, empty)));
                    lemma_assoc_update(p, i as int, empty);
                }
                let ghost before = vs.deep_view();
                assert(before == m[k@]);
                vs.push(str_to_string(v));
                assert(vs.deep_view() =~= before.push(v@));
                self.replace_values(i, vs);
                assert(self@ =~= m.insert(k@, before.push(v@)));
            },
            None => {
                let mut vs: Vec<String> = Vec::new();
                vs.push(str_to_string(v));
                assert(vs.deep_view() =~= seq![v@]);
                self.insert(str_to_string(k), vs);
            },
        }
    }

    /// Gives `k` the single value `v`, replacing any values it had.
    pub fn set_value(&mut self, k: &str, v: &str)
        requires
            old(self).wf(),
        ensures
            final(self).wf(),
            final(self)@ == old(self)@.insert(k@, seq![v@]),
    {
        let mut vs: Vec<String> = Vec::new();
        vs.push(str_to_string(v));
        assert(vs.deep_view() =~= seq![v@]);
        self.insert(str_to_string(k), vs);
    }

    /// Removes `k` and its values (`HashMap::remove`).
    pub fn remove(&mut self, k: &[char])
        requires
            old(self).wf(),
        ensures
            final(self).wf(),
            final(self)@ == old(self)@.remove(k@),
    {
        match self.find(k) {
            Some(i) => {
                let ghost p = self.pairs();
                self.entries.remove(i);
                proof {
                    assert(self.pairs() =~= p.remove(i as int));
                    lemma_assoc_remove(p, i as int);
                }
            },
            None => {
                assert(self@ =~= self@.remove(k@));
            },
        }
    }

    /// Calls `visitor` with each key and its values, which it may change, in
    /// order, until it returns `false` ([`visits_upto`] says what each call
    /// left). Keys and their order stay as they were.
    pub fn each_mut<V: Fn(&str, &mut Vec<String>) -> bool>(&mut self, visitor: V)
        requires
            old(self).wf(),
            forall|k: &str, x: &mut Vec<String>| call_requires(visitor, (k, x)),
        ensures
            final(self).wf(),
            final(self).pairs().len() == old(self).pairs().len(),
            forall|j: int|
                0 <= j < old(self).pairs().len() ==> #[trigger] final(self).pairs()[j].0 == old(self).pairs()[j].0,
            ({
                let visited = |j: int, g: bool|
                    exists|k: &str, x: &mut Vec<String>|
                        k@ == old(self).pairs()[j].0 && (*x).deep_view() == old(self).pairs()[j].1
                            && (*final(x)).deep_view() == final(self).pairs()[j].1 && call_ensures(
                            visitor,
                            (k, x),
                            g,
                        );
                exists|n: int| #[trigger] visits_upto(old(self).pairs(), final(self).pairs(), n, visited)
            }),
    {
        let ghost p0 = self.pairs();
        let mut i: usize = 0;
        let mut go = true;
        while go && i < self.entries.len()
            invariant
                i <= self.entries.len(),
                self.pairs().len() == p0.len(),
                forall|j: int| 0 <= j < p0.len() ==> #[trigger] self.pairs()[j].0 == p0[j].0,
                keys_distinct(p0),
                forall|k: &str, x: &mut Vec<String>| call_requires(visitor, (k, x)),
                forall|j: int| i <= j < p0.len() ==> #[trigger] self.pairs()[j] == p0[j],
                forall|j: int|
                    #![trigger p0[j]]
                    0 <= j < i - 1 ==> (exists|k: &str, x: &mut Vec<String>|
                            k@ == p0[j].0 && (*x).deep_view() == p0[j].1
                                && (*final(x)).deep_view() == self.pairs()[j].1
                                && call_ensures(visitor, (k, x), true)),
                go && 1 <= i ==> (exists|k: &str, x: &mut Vec<String>|
                        k@ == p0[i - 1].0 && (*x).deep_view() == p0[i - 1].1
                            && (*final(x)).deep_view() == self.pairs()[i - 1].1
                            && call_ensures(visitor, (k, x), true)),
                !go ==> 1 <= i && (exists|k: &str, x: &mut Vec<String>|
                        k@ == p0[i - 1].0 && (*x).deep_view() == p0[i - 1].1
                            && (*final(x)).deep_view() == self.pairs()[i - 1].1
                            && call_ensures(visitor, (k, x), false)),
            decreases self.entries.len() - i,
        {
            let ghost e0 = self.entries@;
            let ghost q0 = self.pairs();
            let key = self.entries[i].0.clone();
            let mut vs: Vec<String> = Vec::new();
            std::mem::swap(&mut vs, &mut self.entries[i].1);
            let ghost before = vs;
            let cont = visitor(key.as_str(), &mut vs);
            let ghost after = vs;
            std::mem::swap(&mut vs, &mut self.entries[i].1);
            proof {
                assert(self.entries@.len() == e0.len());
                assert(self.entries@[i as int].0 == e0[i as int].0);
                assert(self.entries@[i as int].1 == after);
                assert(before == e0[i as int].1);
                assert forall|j: int| 0 <= j < p0.len() implies #[trigger] self.pairs()[j].0 == p0[j].0 by {
                    assert(self.pairs()[j] == pair_view(self.entries@[j]));
                    assert(q0[j] == pair_view(e0[j]));
                    if j != i {
                        assert(self.entries@[j] == e0[j]);
                    }
                }
                assert forall|j: int| 0 <= j < p0.len() && j != i implies #[trigger] self.pairs()[j] == q0[j] by {
                    assert(self.entries@[j] == e0[j]);
                }
                assert(q0[i as int] == pair_view(e0[i as int]));
                assert(self.pairs()[i as int] == pair_view(self.entries@[i as int]));
                assert(key@ == p0[i as int].0);
                assert(before.deep_view() == p0[i as int].1);
                assert(after.deep_view() == self.pairs()[i as int].1);
                assert(exists|k: &str, x: &mut Vec<String>|
                        k@ == p0[i as int].0 && (*x).deep_view() == p0[i as int].1
                            && (*final(x)).deep_view() == self.pairs()[i as int].1
                            && call_ensures(visitor, (k, x), cont));
                assert forall|j: int|
                    #![trigger p0[j]]
                    0 <= j < i implies (exists|k: &str, x: &mut Vec<String>|
                            k@ == p0[j].0 && (*x).deep_view() == p0[j].1
                                && (*final(x)).deep_view() == self.pairs()[j].1
                                && call_ensures(visitor, (k, x), true)) by {
                    assert(self.pairs()[j] == q0[j]);
                    assert(p0[j] == p0[j]);
                }
            }
            go = cont;
            i += 1;
        }
        proof {
            assert forall|a: int, b: int| 0 <= a < b < self.pairs().len() implies #[trigger] self.pairs()[a].0
                != #[trigger] self.pairs()[b].0 by {
                assert(self.pairs()[a].0 == p0[a].0);
                assert(self.pairs()[b].0 == p0[b].0);
            }
            let n: int = if go {
                p0.len() as int
            } else {
                i - 1
            };
            let ghost vis = |j: int, g: bool|
                exists|k: &str, x: &mut Vec<String>|
                    k@ == p0[j].0 && (*x).deep_view() == p0[j].1 && (*final(x)).deep_view() == self.pairs()[j].1
                        && call_ensures(visitor, (k, x), g);
            assert forall|j: int| 0 <= j < n implies #[trigger] vis(j, true) by {
                assert(p0[j] == p0[j]);
            }
            if n < p0.len() {
                assert(vis(n, false));
            }
            assert(visits_upto(p0, self.pairs(), n, vis));
        }
    }

    /// Removes every key (`HashMap::clear`).
    pub fn clear(&mut self)
        ensures
            final(self).wf(),
            final(self)@ == Map::<Seq<char>, Seq<Seq<char>>>::empty(),
            final(self).pairs().len() == 0,
    {
        self.entries.clear();
        assert(self.pairs() =~= Seq::<(Seq<char>, Seq<Seq<char>>)>::empty());
    }
}

} // verus!
