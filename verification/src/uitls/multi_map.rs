//! A multi-valued map for message headers and forms: a short list of pairs
//! while small, moved into a keyed map once the list reaches
//! `VEC_CAPACITY` pairs.
//!
//! Keys must not be empty: an emptied key marks a deleted slot in the list,
//! and `append` reuses the first such slot it meets.
use vstd::prelude::*;

use crate::http::header::without;
use crate::listmap::{clone_strings, keys_distinct, pair_view, visits_upto, ListMap};
use crate::text::{chars_of, str_to_string, string_eq_chars};
use crate::utils::multi_values_map::values_or_empty;

verus! {

/// Pairs kept in the list before it is moved into the keyed map.
pub const VEC_CAPACITY: usize = 36;

pub type Pairs = Seq<(Seq<char>, Seq<Seq<char>>)>;

/// Whether a slot answers a search for `k` (and, with `or_empty`, whether it
/// is a deleted slot).
pub open spec fn slot_matches(e: (Seq<char>, Seq<Seq<char>>), k: Seq<char>, or_empty: bool) -> bool {
    e.0 == k || (or_empty && e.0.len() == 0)
}

/// The first slot that answers a search.
pub open spec fn first_slot(p: Pairs, k: Seq<char>, or_empty: bool) -> Option<int>
    decreases p.len(),
{
    if p.len() == 0 {
        None
    } else if slot_matches(p[0], k, or_empty) {
        Some(0)
    } else {
        match first_slot(p.drop_first(), k, or_empty) {
            Some(j) => Some(j + 1),
            None => None,
        }
    }
}

pub proof fn lemma_first_slot_at(p: Pairs, k: Seq<char>, or_empty: bool, j: int)
    requires
        0 <= j < p.len(),
        slot_matches(p[j], k, or_empty),
        forall|i: int| 0 <= i < j ==> !slot_matches(#[trigger] p[i], k, or_empty),
    ensures
        first_slot(p, k, or_empty) == Some(j),
    decreases j,
{
    if j > 0 {
        let t = p.drop_first();
        assert forall|i: int| 0 <= i < j - 1 implies !slot_matches(#[trigger] t[i], k, or_empty) by {
            assert(t[i] == p[i + 1]);
        }
        assert(!slot_matches(p[0], k, or_empty));
        assert(t[j - 1] == p[j]);
        lemma_first_slot_at(t, k, or_empty, j - 1);
    }
}

pub proof fn lemma_first_slot_none(p: Pairs, k: Seq<char>, or_empty: bool)
    requires
        forall|i: int| 0 <= i < p.len() ==> !slot_matches(#[trigger] p[i], k, or_empty),
    ensures
        first_slot(p, k, or_empty) is None,
    decreases p.len(),
{
    if p.len() > 0 {
        let t = p.drop_first();
        assert forall|i: int| 0 <= i < t.len() implies !slot_matches(#[trigger] t[i], k, or_empty) by {
            assert(t[i] == p[i + 1]);
        }
        assert(!slot_matches(p[0], k, or_empty));
        lemma_first_slot_none(t, k, or_empty);
    }
}

pub proof fn lemma_first_slot_facts(p: Pairs, k: Seq<char>, or_empty: bool)
    ensures
        first_slot(p, k, or_empty) matches Some(j) ==> 0 <= j < p.len() && slot_matches(
            p[j],
            k,
            or_empty,
        ) && forall|i: int| 0 <= i < j ==> !slot_matches(#[trigger] p[i], k, or_empty),
        first_slot(p, k, or_empty) is None ==> forall|i: int|
            0 <= i < p.len() ==> !slot_matches(#[trigger] p[i], k, or_empty),
    decreases p.len(),
{
    if p.len() > 0 {
        let t = p.drop_first();
        lemma_first_slot_facts(t, k, or_empty);
        if !slot_matches(p[0], k, or_empty) {
            assert forall|i: int| 1 <= i < p.len() implies #[trigger] p[i] == t[i - 1] by {}
        }
    }
}

/// `m` after inserting the pairs of `p` in order, later ones replacing earlier ones.
pub open spec fn insert_all(m: Map<Seq<char>, Seq<Seq<char>>>, p: Pairs) -> Map<
    Seq<char>,
    Seq<Seq<char>>,
>
    decreases p.len(),
{
    if p.len() == 0 {
        m
    } else {
        insert_all(m, p.drop_last()).insert(p.last().0, p.last().1)
    }
}

/// `m` with `v` added after the values of `k`.
pub open spec fn push_to(m: Map<Seq<char>, Seq<Seq<char>>>, k: Seq<char>, v: Seq<char>) -> Map<
    Seq<char>,
    Seq<Seq<char>>,
> {
    m.insert(k, values_or_empty(m, k).push(v))
}

/// The list after `append` in list mode: the first slot holding `k`, or the
/// first deleted slot before it, takes key `k` and gets `v` appended;
/// without such a slot a new pair is added.
pub open spec fn list_appended(p: Pairs, k: Seq<char>, v: Seq<char>) -> Pairs {
    match first_slot(p, k, true) {
        Some(j) => p.update(j, (k, p[j].1.push(v))),
        None => p.push((k, seq![v])),
    }
}

/// The values found for `k` in list mode: those of the first pair with key `k`.
pub open spec fn list_lookup(p: Pairs, k: Seq<char>) -> Option<Seq<Seq<char>>> {
    match first_slot(p, k, false) {
        Some(j) => Some(p[j].1),
        None => None,
    }
}

pub open spec fn map_lookup(m: Map<Seq<char>, Seq<Seq<char>>>, k: Seq<char>) -> Option<
    Seq<Seq<char>>,
> {
    if m.dom().contains(k) {
        Some(m[k])
    } else {
        None
    }
}

/// What a `MultiMap` holds: whether it is in keyed mode, the list of
/// pairs, and the keyed map.
#[verifier::ext_equal]
pub struct MapState {
    pub is_map: bool,
    pub pairs: Pairs,
    pub map: Map<Seq<char>, Seq<Seq<char>>>,
}

/// The state after `append(k, v)`: in keyed mode `v` joins the values of
/// `k`; a full list first moves into the keyed map; otherwise see
/// [`list_appended`].
pub open spec fn after_append(s: MapState, k: Seq<char>, v: Seq<char>) -> MapState {
    if s.is_map {
        MapState { map: push_to(s.map, k, v), ..s }
    } else if s.pairs.len() >= VEC_CAPACITY {
        MapState {
            is_map: true,
            pairs: Seq::empty(),
            map: push_to(insert_all(s.map, s.pairs), k, v),
        }
    } else {
        MapState { pairs: list_appended(s.pairs, k, v), ..s }
    }
}

/// The state after `delete(k)`: the key leaves the keyed map, or the first
/// list slot holding it is emptied.
pub open spec fn after_delete(s: MapState, k: Seq<char>) -> MapState {
    if s.is_map {
        MapState { map: s.map.remove(k), ..s }
    } else {
        MapState {
            pairs: match first_slot(s.pairs, k, false) {
                Some(j) => s.pairs.update(j, (Seq::<char>::empty(), Seq::<Seq<char>>::empty())),
                None => s.pairs,
            },
            ..s
        }
    }
}

/// What `getall(k)` finds in a state: the keyed map's values, or those of
/// the first list slot holding `k`.
pub open spec fn state_lookup(s: MapState, k: Seq<char>) -> Option<Seq<Seq<char>>> {
    if s.is_map {
        map_lookup(s.map, k)
    } else {
        list_lookup(s.pairs, k)
    }
}

/// A state a `MultiMap` can be in: keyed mode has no list, list mode no
/// keyed map.
pub open spec fn state_wf(s: MapState) -> bool {
    &&& s.is_map ==> s.pairs.len() == 0
    &&& !s.is_map ==> s.map == Map::<Seq<char>, Seq<Seq<char>>>::empty()
}

/// No list slot was deleted and no key is held twice.
pub open spec fn list_clean(p: Pairs) -> bool {
    &&& keys_distinct(p)
    &&& forall|i: int| 0 <= i < p.len() ==> (#[trigger] p[i]).0.len() > 0
}

/// `new` is `old` after `append(k, v)`.
pub open spec fn appended(old: MultiMap, new: MultiMap, k: Seq<char>, v: Seq<char>) -> bool {
    new.wf() && new.state() == after_append(old.state(), k, v)
}

/// `new` is `old` after `delete(k)`.
pub open spec fn deleted(old: MultiMap, new: MultiMap, k: Seq<char>) -> bool {
    new.wf() && new.state() == after_delete(old.state(), k)
}

#[derive(Debug)]
pub struct MultiMap {
    ismap: bool,
    vec: Vec<(String, Vec<String>)>,
    map: Option<ListMap>,
}

impl Default for MultiMap {
    fn default() -> (m: Self)
        ensures
            m.wf(),
            !m.is_map(),
            m.pairs().len() == 0,
            m.map_view() == Map::<Seq<char>, Seq<Seq<char>>>::empty(),
    {
        let m = Self { ismap: false, vec: Vec::new(), map: None };
        assert(m.pairs() =~= Seq::<(Seq<char>, Seq<Seq<char>>)>::empty());
        m
    }
}

impl MultiMap {
    /// The pairs of the list.
    pub closed spec fn pairs(&self) -> Pairs {
        self.vec@.map_values(|e: (String, Vec<String>)| pair_view(e))
    }

    /// Whether the pairs were moved into the keyed map.
    pub closed spec fn is_map(&self) -> bool {
        self.ismap
    }

    /// The keyed map.
    pub closed spec fn map_view(&self) -> Map<Seq<char>, Seq<Seq<char>>> {
        match self.map {
            Some(m) => m@,
            None => Map::empty(),
        }
    }

    /// The pairs of the keyed map, in the order their keys came.
    pub closed spec fn map_pairs(&self) -> Pairs {
        match self.map {
            Some(m) => m.pairs(),
            None => Seq::empty(),
        }
    }

    /// The pairs a visit goes through: those of the keyed map once the list
    /// was moved into it, else those of the list.
    pub open spec fn entries(&self) -> Pairs {
        if self.is_map() {
            self.map_pairs()
        } else {
            self.pairs()
        }
    }

    pub closed spec fn wf(&self) -> bool {
        &&& self.map matches Some(m) ==> m.wf()
        &&& self.ismap ==> self.map is Some && self.pairs().len() == 0
        &&& !self.ismap ==> self.map_view() == Map::<Seq<char>, Seq<Seq<char>>>::empty()
    }

    /// The whole state.
    pub open spec fn state(&self) -> MapState {
        MapState { is_map: self.is_map(), pairs: self.pairs(), map: self.map_view() }
    }

    /// What `getall(k)` finds.
    pub open spec fn lookup(&self, k: Seq<char>) -> Option<Seq<Seq<char>>> {
        state_lookup(self.state(), k)
    }

    /// What `len` counts: the keys of the keyed map, or the slots of the list.
    pub open spec fn spec_len(&self) -> nat {
        if self.is_map() {
            self.map_view().dom().len()
        } else {
            self.pairs().len()
        }
    }

    pub fn new() -> (m: Self)
        ensures
            m.wf(),
            !m.is_map(),
            m.pairs().len() == 0,
            m.map_view() == Map::<Seq<char>, Seq<Seq<char>>>::empty(),
    {
        Default::default()
    }

    /// Position of the first slot with key `k` (or, with `or_empty`, the first
    /// deleted slot, whichever comes first).
    fn vec_find(pairs: &Vec<(String, Vec<String>)>, k: &[char], or_empty: bool) -> (r: Option<
        usize,
    >)
        ensures
            match r {
                Some(i) => first_slot(
                    pairs@.map_values(|e: (String, Vec<String>)| pair_view(e)),
                    k@,
                    or_empty,
                ) == Some(i as int),
                None => first_slot(
                    pairs@.map_values(|e: (String, Vec<String>)| pair_view(e)),
                    k@,
                    or_empty,
                ) is None,
            },
    {
        let ghost p = pairs@.map_values(|e: (String, Vec<String>)| pair_view(e));
        let mut i: usize = 0;
        while i < pairs.len()
            invariant
                i <= pairs.len(),
                p == pairs@.map_values(|e: (String, Vec<String>)| pair_view(e)),
                forall|j: int| 0 <= j < i ==> !slot_matches(#[trigger] p[j], k@, or_empty),
            decreases pairs.len() - i,
        {
            assert(p[i as int] == pair_view(pairs@[i as int]));
            if string_eq_chars(&pairs[i].0, k) || (or_empty && pairs[i].0.as_str().is_empty()) {
                proof {
                    lemma_first_slot_at(p, k@, or_empty, i as int);
                }
                return Some(i);
            }
            i += 1;
        }
        proof {
            lemma_first_slot_none(p, k@, or_empty);
        }
        None
    }

    fn map_append(&mut self, k: &str, v: &str)
        requires
            old(self).wf(),
            old(self).map is Some,
        ensures
            final(self).map is Some,
            final(self).map_view() == push_to(old(self).map_view(), k@, v@),
            final(self).map.unwrap().wf(),
            final(self).vec == old(self).vec,
            final(self).ismap == old(self).ismap,
    {
        match &mut self.map {
            Some(map) => {
                proof {
                    assert(map.wf());
                }
                map.push_value(k, v);
            },
            None => {},
        }
    }

    /// Adds `v` for key `k`. In list mode with fewer than `VEC_CAPACITY`
    /// slots, see [`list_appended`]; once the list is full its pairs move into
    /// the keyed map first, where later pairs replace earlier ones.
    pub fn append(&mut self, k: &str, v: &str)
        requires
            old(self).wf(),
        ensures
            appended(*old(self), *final(self), k@, v@),
    {
        if self.ismap {
            self.map_append(k, v);
            return ;
        }
        if self.vec.len() >= VEC_CAPACITY {
            self.tomap();
            self.map_append(k, v);
            assert(self.pairs() =~= Seq::<(Seq<char>, Seq<Seq<char>>)>::empty());
            return ;
        }
        let ghost p = self.pairs();
        let kc = chars_of(k);
        match Self::vec_find(&self.vec, kc.as_slice(), true) {
            Some(pos) => {
                proof {
                    lemma_first_slot_facts(p, k@, true);
                    assert(p[pos as int] == pair_view(self.vec@[pos as int]));
                }
                let mut vs: Vec<String> = Vec::new();
                std::mem::swap(&mut vs, &mut self.vec[pos].1);
                let ghost before = vs.deep_view();
                vs.push(str_to_string(v));
                assert(vs.deep_view() =~= before.push(v@));
                let mut key = str_to_string(k);
                std::mem::swap(&mut key, &mut self.vec[pos].0);
                std::mem::swap(&mut vs, &mut self.vec[pos].1);
                proof {
                    assert(self.pairs() =~= p.update(pos as int, (k@, p[pos as int].1.push(v@))));
                }
            },
            None => {
                let mut vs: Vec<String> = Vec::new();
                vs.push(str_to_string(v));
                assert(vs.deep_view() =~= seq![v@]);
                self.vec.push((str_to_string(k), vs));
                proof {
                    assert(self.pairs() =~= p.push((k@, seq![v@])));
                }
            },
        }
    }

    /// Removes every value equal to `v` from `vs`, searching again from an
    /// offset after each removal until no match is left.
    fn vec_remove_by_value(vs: &mut Vec<String>, v: &str)
        ensures
            final(vs).deep_view() == without(old(vs).deep_view(), v@),
    {
        let d = str_to_string(v);
        let mut skip: usize = 0;
        loop
            invariant
                d@ == v@,
                skip <= vs.len(),
                without(vs.deep_view(), v@) == without(old(vs).deep_view(), v@),
                forall|j: int| 0 <= j < skip ==> #[trigger] vs.deep_view()[j] != v@,
            ensures
                without(vs.deep_view(), v@) == without(old(vs).deep_view(), v@),
                forall|j: int| 0 <= j < vs.len() ==> #[trigger] vs.deep_view()[j] != v@,
            decreases vs.len(),
        {
            let mut found: Option<usize> = None;
            let mut j: usize = skip;
            while j < vs.len()
                invariant_except_break
                    found is None,
                invariant
                    skip <= j <= vs.len(),
                    d@ == v@,
                    forall|i: int| skip <= i < j ==> #[trigger] vs.deep_view()[i] != v@,
                ensures
                    found matches Some(q) ==> skip + q < vs.len() && vs.deep_view()[skip + q] == v@
                        && forall|i: int| skip <= i < skip + q ==> #[trigger] vs.deep_view()[i] != v@,
                    found is None ==> forall|i: int| skip <= i < vs.len() ==> #[trigger] vs.deep_view()[i] != v@,
                decreases vs.len() - j,
            {
                assert(vs.deep_view()[j as int] == vs@[j as int]@);
                if vs[j] == d {
                    found = Some(j - skip);
                    break;
                }
                j += 1;
            }
            match found {
                Some(pos) => {
                    let ghost before = vs.deep_view();
                    assert(before[(pos + skip) as int] == v@);
                    vs.remove(pos + skip);
                    proof {
                        assert(vs.deep_view() =~= before.remove((pos + skip) as int));
                        lemma_without_remove(before, (pos + skip) as int, v@);
                        assert forall|i: int| 0 <= i < pos implies #[trigger] vs.deep_view()[i] != v@ by {
                            assert(vs.deep_view()[i] == before[i]);
                            assert(before[i] != v@);
                        }
                    }
                    skip = pos;
                },
                None => {
                    break;
                },
            }
        }
        proof {
            lemma_without_none(vs.deep_view(), v@);
        }
    }

    /// Removes every value equal to `v` from the values of `k`.
    pub fn remove(&mut self, k: &str, v: &str)
        requires
            old(self).wf(),
            k@.len() > 0,
        ensures
            final(self).wf(),
            final(self).is_map() == old(self).is_map(),
            old(self).is_map() ==> final(self).pairs() == old(self).pairs() && final(self).map_view()
                == (if old(self).map_view().dom().contains(k@) {
                old(self).map_view().insert(k@, without(old(self).map_view()[k@], v@))
            } else {
                old(self).map_view()
            }),
            !old(self).is_map() ==> final(self).map_view() == old(self).map_view() && final(self).pairs() == match first_slot(old(self).pairs(), k@, false) {
                Some(j) => old(self).pairs().update(
                    j,
                    (old(self).pairs()[j].0, without(old(self).pairs()[j].1, v@)),
                ),
                None => old(self).pairs(),
            },
    {
        let kc = chars_of(k);
        if self.ismap {
            match &mut self.map {
                Some(map) => {
                    match map.get_mut(kc.as_slice()) {
                        Some(vs) => {
                            Self::vec_remove_by_value(vs, v);
                        },
                        None => {},
                    }
                },
                None => {},
            }
            return ;
        }
        let ghost p = self.pairs();
        match Self::vec_find(&self.vec, kc.as_slice(), false) {
            Some(pos) => {
                proof {
                    lemma_first_slot_facts(p, k@, false);
                    assert(p[pos as int] == pair_view(self.vec@[pos as int]));
                    law_without_shrinks(p[pos as int].1, v@);
                }
                let mut vs: Vec<String> = Vec::new();
                std::mem::swap(&mut vs, &mut self.vec[pos].1);
                Self::vec_remove_by_value(&mut vs, v);
                std::mem::swap(&mut vs, &mut self.vec[pos].1);
                proof {
                    assert(self.pairs() =~= p.update(
                        pos as int,
                        (p[pos as int].0, without(p[pos as int].1, v@)),
                    ));
                }
            },
            None => {},
        }
    }

    /// Removes key `k`: from the keyed map, or by emptying the first list
    /// slot with that key.
    pub fn delete(&mut self, k: &str)
        requires
            old(self).wf(),
        ensures
            deleted(*old(self), *final(self), k@),
    {
        let kc = chars_of(k);
        if self.ismap {
            match &mut self.map {
                Some(map) => {
                    map.remove(kc.as_slice());
                },
                None => {},
            }
            return ;
        }
        let ghost p = self.pairs();
        match Self::vec_find(&self.vec, kc.as_slice(), false) {
            Some(pos) => {
                proof {
                    lemma_first_slot_facts(p, k@, false);
                }
                let mut key = String::new();
                let mut vs: Vec<String> = Vec::new();
                assert(vs.deep_view() =~= Seq::<Seq<char>>::empty());
                std::mem::swap(&mut key, &mut self.vec[pos].0);
                std::mem::swap(&mut vs, &mut self.vec[pos].1);
                proof {
                    assert(self.pairs() =~= p.update(
                        pos as int,
                        (Seq::<char>::empty(), Seq::<Seq<char>>::empty()),
                    ));
                }
            },
            None => {},
        }
    }

    /// Empties the map and returns to list mode.
    pub fn clear(&mut self)
        requires
            old(self).wf(),
        ensures
            final(self).wf(),
            !final(self).is_map(),
            final(self).pairs().len() == 0,
            final(self).map_view() == Map::<Seq<char>, Seq<Seq<char>>>::empty(),
    {
        self.vec.clear();
        match self.map.as_mut() {
            Some(map) => {
                map.clear();
            },
            None => {},
        }
        self.ismap = false;
        assert(self.pairs() =~= Seq::<(Seq<char>, Seq<Seq<char>>)>::empty());
    }

    /// Moves the list's pairs, in order, into the keyed map.
    fn tomap(&mut self)
        requires
            old(self).wf(),
            !old(self).is_map(),
        ensures
            final(self).wf(),
            final(self).is_map(),
            final(self).pairs().len() == 0,
            final(self).map_view() == insert_all(old(self).map_view(), old(self).pairs()),
    {
        if self.map.is_none() {
            self.map = Some(ListMap::new());
        }
        let ghost p = self.pairs();
        let ghost m0 = self.map_view();
        let mut map = ListMap::new();
        match self.map.take() {
            Some(m) => {
                map = m;
            },
            None => {},
        }
        let mut i: usize = 0;
        while i < self.vec.len()
            invariant
                i <= self.vec.len(),
                p == self.pairs(),
                map.wf(),
                map@ == insert_all(m0, p.take(i as int)),
            decreases self.vec.len() - i,
        {
            assert(p[i as int] == pair_view(self.vec@[i as int]));
            let key = self.vec[i].0.clone();
            let vs = clone_strings(&self.vec[i].1);
            map.insert(key, vs);
            assert(p.take(i + 1).drop_last() =~= p.take(i as int));
            i += 1;
        }
        assert(p.take(p.len() as int) =~= p);
        self.map = Some(map);
        self.vec.clear();
        self.ismap = true;
        assert(self.pairs() =~= Seq::<(Seq<char>, Seq<Seq<char>>)>::empty());
    }

    /// All values of `k`.
    pub fn getall(&self, k: &str) -> (r: Option<&Vec<String>>)
        requires
            self.wf(),
        ensures
            r is Some <==> self.lookup(k@) is Some,
            r matches Some(vs) ==> self.lookup(k@) == Some(vs.deep_view()),
    {
        let kc = chars_of(k);
        if self.ismap {
            match &self.map {
                Some(map) => {
                    return map.get(kc.as_slice());
                },
                None => {
                    return None;
                },
            }
        }
        match Self::vec_find(&self.vec, kc.as_slice(), false) {
            Some(pos) => {
                proof {
                    lemma_first_slot_facts(self.pairs(), k@, false);
                    assert(self.pairs()[pos as int] == pair_view(self.vec@[pos as int]));
                }
                Some(&self.vec[pos].1)
            },
            None => None,
        }
    }

    /// The first value of `k`.
    pub fn get(&self, k: &str) -> (r: Option<&String>)
        requires
            self.wf(),
        ensures
            match r {
                Some(s) => self.lookup(k@) matches Some(vs) && vs.len() > 0 && vs[0] == s@,
                None => self.lookup(k@) matches Some(vs) ==> vs.len() == 0,
            },
    {
        match self.getall(k) {
            Some(vs) => {
                if vs.len() > 0 {
                    Some(&vs[0])
                } else {
                    None
                }
            },
            None => None,
        }
    }

    /// Calls `visitor` with each key and its values, in order, until it
    /// returns `false` (`visits_upto` says which calls were made).
    pub fn each<V: Fn(&str, &Vec<String>) -> bool>(&self, visitor: V)
        requires
            self.wf(),
            forall|k: &str, vs: &Vec<String>| call_requires(visitor, (k, vs)),
        ensures
            ({
                let visited = |j: int, g: bool|
                    exists|k: &str, vs: &Vec<String>|
                        k@ == self.entries()[j].0 && vs.deep_view() == self.entries()[j].1
                            && call_ensures(visitor, (k, vs), g);
                exists|n: int| #[trigger] visits_upto(self.entries(), self.entries(), n, visited)
            }),
    {
        let entries = if self.ismap {
            match &self.map {
                Some(map) => map.entries(),
                None => &self.vec,
            }
        } else {
            &self.vec
        };
        let ghost es = self.entries();
        assert(entries@.map_values(|e: (String, Vec<String>)| pair_view(e)) == es);
        let mut i: usize = 0;
        let mut go = true;
        while go && i < entries.len()
            invariant
                i <= entries.len(),
                es.len() == entries.len(),
                entries@.map_values(|e: (String, Vec<String>)| pair_view(e)) == es,
                forall|k: &str, vs: &Vec<String>| call_requires(visitor, (k, vs)),
                forall|j: int|
                    #![trigger es[j]]
                    0 <= j < i - 1 ==> (exists|k: &str, vs: &Vec<String>|
                        k@ == es[j].0 && vs.deep_view() == es[j].1 && call_ensures(visitor, (k, vs), true)),
                go && 1 <= i ==> (exists|k: &str, vs: &Vec<String>|
                    k@ == es[i - 1].0 && vs.deep_view() == es[i - 1].1 && call_ensures(visitor, (k, vs), true)),
                !go ==> 1 <= i && (exists|k: &str, vs: &Vec<String>|
                    k@ == es[i - 1].0 && vs.deep_view() == es[i - 1].1 && call_ensures(visitor, (k, vs), false)),
            decreases entries.len() - i,
        {
            let cont = visitor(entries[i].0.as_str(), &entries[i].1);
            proof {
                assert(es[i as int] == pair_view(entries@[i as int]));
                assert(exists|k: &str, vs: &Vec<String>|
                    k@ == es[i as int].0 && vs.deep_view() == es[i as int].1 && call_ensures(visitor, (k, vs), cont));
                assert forall|j: int|
                    #![trigger es[j]]
                    0 <= j < i implies (exists|k: &str, vs: &Vec<String>|
                        k@ == es[j].0 && vs.deep_view() == es[j].1 && call_ensures(visitor, (k, vs), true)) by {
                    assert(es[j] == es[j]);
                }
            }
            go = cont;
            i += 1;
        }
        proof {
            let n: int = if go {
                es.len() as int
            } else {
                i - 1
            };
            let vis = |j: int, g: bool|
                exists|k: &str, vs: &Vec<String>|
                    k@ == es[j].0 && vs.deep_view() == es[j].1 && call_ensures(visitor, (k, vs), g);
            assert forall|j: int| 0 <= j < n implies #[trigger] vis(j, true) by {
                assert(es[j] == es[j]);
            }
            if n < es.len() {
                assert(vis(n, false));
            }
            assert(visits_upto(es, es, n, vis));
        }
    }

    /// Calls `visitor` with each key and its values, which it may change, in
    /// order, until it returns `false` (`visits_upto` says what each call
    /// left). Keys stay as they were.
    pub fn each_mut<V: Fn(&str, &mut Vec<String>) -> bool>(&mut self, visitor: V)
        requires
            old(self).wf(),
            forall|k: &str, vs: &mut Vec<String>| call_requires(visitor, (k, vs)),
        ensures
            final(self).wf(),
            final(self).is_map() == old(self).is_map(),
            final(self).pairs().len() == old(self).pairs().len(),
            forall|j: int|
                0 <= j < old(self).pairs().len() ==> #[trigger] final(self).pairs()[j].0 == old(self).pairs()[j].0,
            old(self).is_map() ==> final(self).map_view().dom() == old(self).map_view().dom(),
            final(self).entries().len() == old(self).entries().len(),
            forall|j: int|
                0 <= j < old(self).entries().len() ==> #[trigger] final(self).entries()[j].0 == old(self).entries()[j].0,
            ({
                let visited = |j: int, g: bool|
                    exists|k: &str, x: &mut Vec<String>|
                        k@ == old(self).entries()[j].0 && (*x).deep_view() == old(self).entries()[j].1
                            && (*final(x)).deep_view() == final(self).entries()[j].1
                            && call_ensures(visitor, (k, x), g);
                exists|n: int| #[trigger] visits_upto(old(self).entries(), final(self).entries(), n, visited)
            }),
    {
        if self.ismap {
            match &mut self.map {
                Some(map) => {
                    let ghost before = map.pairs();
                    map.each_mut(visitor);
                    proof {
                        lemma_same_keys_dom(before, map.pairs());
                    }
                },
                None => {},
            }
            return ;
        }
        let ghost p0 = self.pairs();
        let mut i: usize = 0;
        let mut go = true;
        while go && i < self.vec.len()
            invariant
                i <= self.vec.len(),
                !self.ismap,
                self.map_view() == Map::<Seq<char>, Seq<Seq<char>>>::empty(),
                self.map matches Some(m) ==> m.wf(),
                self.pairs().len() == p0.len(),
                forall|j: int| 0 <= j < p0.len() ==> #[trigger] self.pairs()[j].0 == p0[j].0,
                forall|k: &str, vs: &mut Vec<String>| call_requires(visitor, (k, vs)),
                forall|j: int| i <= j < p0.len() ==> #[trigger] self.pairs()[j] == p0[j],
                forall|j: int|
                    #![trigger p0[j]]
                    0 <= j < i - 1 ==> (exists|k: &str, x: &mut Vec<String>|
                        k@ == p0[j].0 && (*x).deep_view() == p0[j].1
                            && (*final(x)).deep_view() == self.pairs()[j].1
                            && call_ensures(visitor, (k, x), true)),
                go && 1 <= i ==> (exists|k: &str, x: &mut Vec<String>|
                        k@ == p0[i - 1].0 && (*x).deep_view() == p0[i - 1].1
                            && (*final(x)).deep_view() == self.pairs()[i - 1].1
                            && call_ensures(visitor, (k, x), true)),
                !go ==> 1 <= i && (exists|k: &str, x: &mut Vec<String>|
                        k@ == p0[i - 1].0 && (*x).deep_view() == p0[i - 1].1
                            && (*final(x)).deep_view() == self.pairs()[i - 1].1
                            && call_ensures(visitor, (k, x), false)),
            decreases self.vec.len() - i,
        {
            let ghost e0 = self.vec@;
            let ghost q0 = self.pairs();
            let key = self.vec[i].0.clone();
            let mut vs: Vec<String> = Vec::new();
            std::mem::swap(&mut vs, &mut self.vec[i].1);
            let ghost before = vs;
            let cont = visitor(key.as_str(), &mut vs);
            let ghost after = vs;
            std::mem::swap(&mut vs, &mut self.vec[i].1);
            proof {
                assert(self.vec@.len() == e0.len());
                assert(self.vec@[i as int].0 == e0[i as int].0);
                assert(self.vec@[i as int].1 == after);
                assert(before == e0[i as int].1);
                assert forall|j: int| 0 <= j < p0.len() implies #[trigger] self.pairs()[j].0 == p0[j].0 by {
                    assert(self.pairs()[j] == pair_view(self.vec@[j]));
                    assert(q0[j] == pair_view(e0[j]));
                    if j != i {
                        assert(self.vec@[j] == e0[j]);
                    }
                }
                assert forall|j: int| 0 <= j < p0.len() && j != i implies #[trigger] self.pairs()[j] == q0[j] by {
                    assert(self.vec@[j] == e0[j]);
                }
                assert(q0[i as int] == pair_view(e0[i as int]));
                assert(self.pairs()[i as int] == pair_view(self.vec@[i as int]));
                assert(key@ == p0[i as int].0);
                assert(before.deep_view() == p0[i as int].1);
                assert(after.deep_view() == self.pairs()[i as int].1);
                assert(exists|k: &str, x: &mut Vec<String>|
                        k@ == p0[i as int].0 && (*x).deep_view() == p0[i as int].1
                            && (*final(x)).deep_view() == self.pairs()[i as int].1
                            && call_ensures(visitor, (k, x), cont));
                assert forall|j: int|
                    #![trigger p0[j]]
                    0 <= j < i implies (exists|k: &str, x: &mut Vec<String>|
                            k@ == p0[j].0 && (*x).deep_view() == p0[j].1
                                && (*final(x)).deep_view() == self.pairs()[j].1
                                && call_ensures(visitor, (k, x), true)) by {
                    assert(self.pairs()[j] == q0[j]);
                    assert(p0[j] == p0[j]);
                }
            }
            go = cont;
            i += 1;
        }
        proof {
            let n: int = if go {
                p0.len() as int
            } else {
                i - 1
            };
            let ghost vis = |j: int, g: bool|
                exists|k: &str, x: &mut Vec<String>|
                    k@ == p0[j].0 && (*x).deep_view() == p0[j].1
                        && (*final(x)).deep_view() == self.pairs()[j].1
                        && call_ensures(visitor, (k, x), g);
            assert forall|j: int| 0 <= j < n implies #[trigger] vis(j, true) by {
                assert(p0[j] == p0[j]);
            }
            if n < p0.len() {
                assert(vis(n, false));
            }
            assert(visits_upto(p0, self.pairs(), n, vis));
        }
    }

    /// The keys of the keyed map, or the slots of the list.
    pub fn len(&self) -> (n: usize)
        requires
            self.wf(),
        ensures
            n == self.spec_len(),
    {
        if self.ismap {
            match &self.map {
                Some(map) => {
                    return map.len();
                },
                None => {
                    return 0;
                },
            }
        }
        self.vec.len()
    }
}

proof fn lemma_same_keys_dom(a: Pairs, b: Pairs)
    requires
        a.len() == b.len(),
        forall|j: int| 0 <= j < a.len() ==> #[trigger] b[j].0 == a[j].0,
    ensures
        crate::listmap::assoc_map(a).dom() == crate::listmap::assoc_map(b).dom(),
    decreases a.len(),
{
    if a.len() > 0 {
        assert forall|j: int| 0 <= j < a.drop_last().len() implies #[trigger] b.drop_last()[j].0
            == a.drop_last()[j].0 by {
            assert(b[j].0 == a[j].0);
        }
        lemma_same_keys_dom(a.drop_last(), b.drop_last());
        assert(b[b.len() - 1].0 == a[a.len() - 1].0);
    }
}

proof fn lemma_without_remove(vs: Seq<Seq<char>>, i: int, d: Seq<char>)
    requires
        0 <= i < vs.len(),
        vs[i] == d,
    ensures
        without(vs.remove(i), d) == without(vs, d),
    decreases vs.len(),
{
    if i == vs.len() - 1 {
        assert(vs.remove(i) =~= vs.drop_last());
    } else {
        let t = vs.drop_last();
        assert(vs.remove(i).drop_last() =~= t.remove(i));
        assert(vs.remove(i).last() == vs.last());
        lemma_without_remove(t, i, d);
    }
}

proof fn lemma_without_none(vs: Seq<Seq<char>>, d: Seq<char>)
    requires
        forall|j: int| 0 <= j < vs.len() ==> #[trigger] vs[j] != d,
    ensures
        without(vs, d) == vs,
    decreases vs.len(),
{
    if vs.len() > 0 {
        let t = vs.drop_last();
        assert forall|j: int| 0 <= j < t.len() implies #[trigger] t[j] != d by {
            assert(t[j] == vs[j]);
        }
        lemma_without_none(t, d);
        assert(vs[vs.len() - 1] != d);
        assert(t.push(vs.last()) =~= vs);
    }
}

/// `without` never lengthens a list.
pub proof fn law_without_shrinks(vs: Seq<Seq<char>>, d: Seq<char>)
    ensures
        without(vs, d).len() <= vs.len(),
    decreases vs.len(),
{
    if vs.len() > 0 {
        law_without_shrinks(vs.drop_last(), d);
    }
}


proof fn lemma_insert_all_lookup(m: Map<Seq<char>, Seq<Seq<char>>>, p: Pairs, k: Seq<char>)
    requires
        keys_distinct(p),
    ensures
        map_lookup(insert_all(m, p), k) == match first_slot(p, k, false) {
            Some(j) => Some(p[j].1),
            None => map_lookup(m, k),
        },
    decreases p.len(),
{
    lemma_first_slot_facts(p, k, false);
    if p.len() > 0 {
        let q = p.drop_last();
        assert forall|a: int, b: int| 0 <= a < b < q.len() implies #[trigger] q[a].0
            != #[trigger] q[b].0 by {
            assert(q[a] == p[a] && q[b] == p[b]);
        }
        lemma_insert_all_lookup(m, q, k);
        lemma_first_slot_facts(q, k, false);
        if p.last().0 == k {
            match first_slot(p, k, false) {
                Some(j) => {
                    if j < p.len() - 1 {
                        assert(p[j].0 == k);
                        assert(p[p.len() - 1].0 == k);
                    }
                },
                None => {
                    assert(p[p.len() - 1].0 == k);
                },
            }
        } else {
            match first_slot(p, k, false) {
                Some(j) => {
                    assert(j != p.len() - 1);
                    assert(q[j] == p[j]);
                    assert forall|i: int| 0 <= i < j implies !slot_matches(#[trigger] q[i], k, false) by {
                        assert(q[i] == p[i]);
                    }
                    lemma_first_slot_at(q, k, false, j);
                },
                None => {
                    assert forall|i: int| 0 <= i < q.len() implies !slot_matches(#[trigger] q[i], k, false) by {
                        assert(q[i] == p[i]);
                    }
                    lemma_first_slot_none(q, k, false);
                },
            }
        }
    }
}

/// After `append(k, v)`, `getall(k)` ends with `v`.
pub proof fn law_append_then_get_last(s: MapState, k: Seq<char>, v: Seq<char>)
    requires
        state_wf(s),
    ensures
        state_lookup(after_append(s, k, v), k) matches Some(vs) && vs.len() > 0 && vs.last() == v,
{
    if s.is_map {
    } else if s.pairs.len() >= VEC_CAPACITY {
    } else {
        let p = s.pairs;
        let n = list_appended(p, k, v);
        lemma_first_slot_facts(p, k, true);
        match first_slot(p, k, true) {
            Some(j) => {
                assert forall|i: int| 0 <= i < j implies !slot_matches(#[trigger] n[i], k, false) by {
                    assert(n[i] == p[i]);
                    assert(!slot_matches(p[i], k, true));
                }
                lemma_first_slot_at(n, k, false, j);
            },
            None => {
                assert forall|i: int| 0 <= i < p.len() implies !slot_matches(#[trigger] n[i], k, false) by {
                    assert(n[i] == p[i]);
                    assert(!slot_matches(p[i], k, true));
                }
                lemma_first_slot_at(n, k, false, p.len() as int);
            },
        }
    }
}

/// When no list slot was deleted and no key is held twice, `append(k, v)`
/// keeps the values `getall(k)` found and adds `v` after them.
pub proof fn law_append_keeps_values(s: MapState, k: Seq<char>, v: Seq<char>)
    requires
        state_wf(s),
        !s.is_map ==> list_clean(s.pairs),
    ensures
        state_lookup(after_append(s, k, v), k) == Some(
            match state_lookup(s, k) {
                Some(vs) => vs,
                None => Seq::<Seq<char>>::empty(),
            }.push(v),
        ),
{
    if s.is_map {
    } else {
        let p = s.pairs;
        lemma_first_slot_facts(p, k, true);
        lemma_first_slot_facts(p, k, false);
        if s.pairs.len() >= VEC_CAPACITY {
            lemma_insert_all_lookup(s.map, p, k);
        } else {
            let n = list_appended(p, k, v);
            match first_slot(p, k, true) {
                Some(j) => {
                    assert(p[j].0.len() > 0);
                    assert forall|i: int| 0 <= i < j implies !slot_matches(#[trigger] p[i], k, false) by {
                        assert(!slot_matches(p[i], k, true));
                    }
                    lemma_first_slot_at(p, k, false, j);
                    assert forall|i: int| 0 <= i < j implies !slot_matches(#[trigger] n[i], k, false) by {
                        assert(n[i] == p[i]);
                        assert(!slot_matches(p[i], k, true));
                    }
                    lemma_first_slot_at(n, k, false, j);
                },
                None => {
                    assert forall|i: int| 0 <= i < p.len() implies !slot_matches(#[trigger] p[i], k, false) by {
                        assert(!slot_matches(p[i], k, true));
                    }
                    lemma_first_slot_none(p, k, false);
                    assert forall|i: int| 0 <= i < p.len() implies !slot_matches(#[trigger] n[i], k, false) by {
                        assert(n[i] == p[i]);
                        assert(!slot_matches(p[i], k, true));
                    }
                    lemma_first_slot_at(n, k, false, p.len() as int);
                },
            }
        }
    }
}

/// When no key is held twice, after `delete(k)` with a non-empty `k`,
/// `getall(k)` finds nothing.
pub proof fn law_delete_then_get(s: MapState, k: Seq<char>)
    requires
        state_wf(s),
        !s.is_map ==> keys_distinct(s.pairs),
        k.len() > 0,
    ensures
        state_lookup(after_delete(s, k), k) is None,
{
    if !s.is_map {
        let p = s.pairs;
        lemma_first_slot_facts(p, k, false);
        match first_slot(p, k, false) {
            Some(j) => {
                let n = p.update(j, (Seq::<char>::empty(), Seq::<Seq<char>>::empty()));
                assert forall|i: int| 0 <= i < n.len() implies !slot_matches(#[trigger] n[i], k, false) by {
                    if i != j {
                        assert(n[i] == p[i]);
                        assert(p[i].0 != p[j].0);
                    }
                }
                lemma_first_slot_none(n, k, false);
            },
            None => {},
        }
    }
}

} // verus!
