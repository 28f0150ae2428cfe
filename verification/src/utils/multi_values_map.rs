//! A map from a key to several values, optionally case-insensitive in its keys.
use vstd::prelude::*;

use crate::listmap::ListMap;
use crate::text::{ascii_lower, chars_of, to_ascii_lowercase};

verus! {

/// A multi-valued map. Unless `case_sensitive` is set, `append` and `set`
/// store their key in ASCII lower case; lookups use the key as given.
#[derive(Debug)]
pub struct MultiValuesMap {
    pub(crate) _map: Option<ListMap>,
    pub(crate) case_sensitive: bool,
}

impl Default for MultiValuesMap {
    /// An empty map whose keys are stored in lower case.
    fn default() -> (m: Self)
        ensures
            m.wf(),
            m@ == Map::<Seq<char>, Seq<Seq<char>>>::empty(),
            !m.has_map(),
            !m.is_case_sensitive(),
    {
        MultiValuesMap { _map: None, case_sensitive: false }
    }
}

/// The values of `k` in `m`, or none.
pub open spec fn values_or_empty(
    m: Map<Seq<char>, Seq<Seq<char>>>,
    k: Seq<char>,
) -> Seq<Seq<char>> {
    if m.dom().contains(k) {
        m[k]
    } else {
        Seq::empty()
    }
}

/// The first value of `k` in `m`, if there is one.
pub open spec fn first_value(m: Map<Seq<char>, Seq<Seq<char>>>, k: Seq<char>) -> Option<
    Seq<char>,
> {
    if m.dom().contains(k) && m[k].len() > 0 {
        Some(m[k][0])
    } else {
        None
    }
}

impl MultiValuesMap {
    pub closed spec fn wf(&self) -> bool {
        self._map matches Some(m) ==> m.wf()
    }

    pub closed spec fn view(&self) -> Map<Seq<char>, Seq<Seq<char>>> {
        match self._map {
            Some(m) => m@,
            None => Map::empty(),
        }
    }

    /// Whether keys keep their case.
    pub closed spec fn is_case_sensitive(&self) -> bool {
        self.case_sensitive
    }

    /// Whether the underlying map exists (a value was stored since creation).
    pub closed spec fn has_map(&self) -> bool {
        self._map is Some
    }

    /// The key under which `append` and `set` store `key`.
    pub open spec fn stored_key(&self, key: Seq<char>) -> Seq<char> {
        if self.is_case_sensitive() {
            key
        } else {
            ascii_lower(key)
        }
    }

    /// An empty map; `case_sensitive` decides whether keys keep their case.
    pub fn with_case(case_sensitive: bool) -> (m: Self)
        ensures
            m.wf(),
            m@ == Map::<Seq<char>, Seq<Seq<char>>>::empty(),
            !m.has_map(),
            m.is_case_sensitive() == case_sensitive,
    {
        MultiValuesMap { _map: None, case_sensitive }
    }

    /// The underlying map, if any value was ever stored.
    pub fn map(&self) -> (r: Option<&ListMap>)
        ensures
            r is Some <==> self.has_map(),
            r matches Some(m) ==> m@ == self@ && m.wf() == self.wf(),
            r is None ==> self@ == Map::<Seq<char>, Seq<Seq<char>>>::empty(),
    {
        match &self._map {
            Some(m) => Some(m),
            None => None,
        }
    }

    /// Removes every key.
    pub fn clear(&mut self)
        requires
            old(self).wf(),
        ensures
            final(self).wf(),
            final(self)@ == Map::<Seq<char>, Seq<Seq<char>>>::empty(),
            final(self).has_map() == old(self).has_map(),
            final(self).is_case_sensitive() == old(self).is_case_sensitive(),
    {
        match &mut self._map {
            Some(map) => {
                map.clear();
            },
            None => {},
        }
    }

    /// Number of keys.
    pub fn len(&self) -> (n: usize)
        requires
            self.wf(),
        ensures
            n == self@.dom().len(),
    {
        match &self._map {
            Some(map) => map.len(),
            None => 0,
        }
    }

    fn _do_append(&mut self, key: &str, val: &str)
        requires
            old(self).wf(),
        ensures
            final(self).wf(),
            final(self).has_map(),
            final(self).is_case_sensitive() == old(self).is_case_sensitive(),
            final(self)@ == old(self)@.insert(key@, values_or_empty(old(self)@, key@).push(val@)),
    {
        match &mut self._map {
            None => {
                let mut map = ListMap::new();
                map.push_value(key, val);
                self._map = Some(map);
            },
            Some(map) => {
                map.push_value(key, val);
            },
        }
    }

    /// Adds `val` after the values of `key` (lower-cased unless case-sensitive).
    pub fn append(&mut self, key: &str, val: &str)
        requires
            old(self).wf(),
        ensures
            final(self).wf(),
            final(self).has_map(),
            final(self).is_case_sensitive() == old(self).is_case_sensitive(),
            final(self)@ == old(self)@.insert(
                old(self).stored_key(key@),
                values_or_empty(old(self)@, old(self).stored_key(key@)).push(val@),
            ),
    {
        if self.case_sensitive {
            self._do_append(key, val);
            return ;
        }
        let lower = to_ascii_lowercase(key);
        self._do_append(lower.as_str(), val);
    }

    /// Makes `val` the only value of `key` (lower-cased unless case-sensitive).
    pub fn set(&mut self, key: &str, val: &str)
        requires
            old(self).wf(),
        ensures
            final(self).wf(),
            final(self).has_map(),
            final(self).is_case_sensitive() == old(self).is_case_sensitive(),
            final(self)@ == old(self)@.insert(old(self).stored_key(key@), seq![val@]),
    {
        let k = if self.case_sensitive {
            crate::text::str_to_string(key)
        } else {
            to_ascii_lowercase(key)
        };
        if self._map.is_none() {
            self._do_append(k.as_str(), val);
            assert(values_or_empty(Map::<Seq<char>, Seq<Seq<char>>>::empty(), k@).push(val@)
                =~= seq![val@]);
            return ;
        }
        match &mut self._map {
            Some(map) => {
                map.set_value(k.as_str(), val);
            },
            None => {},
        }
    }

    /// The first value of `key`, compared as given.
    pub fn get(&self, key: &str) -> (r: Option<&String>)
        requires
            self.wf(),
        ensures
            match r {
                Some(s) => first_value(self@, key@) == Some(s@),
                None => first_value(self@, key@) is None,
            },
    {
        match &self._map {
            None => None,
            Some(map) => {
                let kc = chars_of(key);
                match map.get(kc.as_slice()) {
                    None => None,
                    Some(vec) => {
                        if vec.len() > 0 {
                            Some(&vec[0])
                        } else {
                            None
                        }
                    },
                }
            },
        }
    }

    /// All values of `key`, compared as given.
    pub fn get_all(&self, key: &str) -> (r: Option<&Vec<String>>)
        requires
            self.wf(),
        ensures
            r is Some <==> self@.dom().contains(key@),
            r matches Some(vs) ==> vs.deep_view() == self@[key@],
    {
        match &self._map {
            None => None,
            Some(map) => {
                let kc = chars_of(key);
                map.get(kc.as_slice())
            },
        }
    }

    /// All values of `key`, compared as given, for changing them in place.
    pub fn get_all_mut(&mut self, key: &str) -> (r: Option<&mut Vec<String>>)
        requires
            old(self).wf(),
        ensures
            r is Some <==> old(self)@.dom().contains(key@),
            r matches Some(vs) ==> vs.deep_view() == old(self)@[key@] && final(self).wf()
                && final(self)@ == old(self)@.insert(key@, final(vs).deep_view())
                && final(self).has_map() == old(self).has_map()
                && final(self).is_case_sensitive() == old(self).is_case_sensitive(),
            r is None ==> *final(self) == *old(self),
    {
        match &mut self._map {
            None => None,
            Some(map) => {
                let kc = chars_of(key);
                map.get_mut(kc.as_slice())
            },
        }
    }

    /// Removes `key` (compared as given) and its values.
    pub fn remove(&mut self, key: &str)
        requires
            old(self).wf(),
        ensures
            final(self).wf(),
            final(self)@ == old(self)@.remove(key@),
            final(self).has_map() == old(self).has_map(),
            final(self).is_case_sensitive() == old(self).is_case_sensitive(),
    {
        match &mut self._map {
            None => {},
            Some(map) => {
                let kc = chars_of(key);
                map.remove(kc.as_slice());
            },
        }
    }

    /// Number of values of `key`, compared as given.
    pub fn count(&self, key: &str) -> (n: usize)
        requires
            self.wf(),
        ensures
            n == values_or_empty(self@, key@).len(),
    {
        match self.get_all(key) {
            None => 0,
            Some(vec) => vec.len(),
        }
    }

    /// Whether `key`, compared as given, is present.
    pub fn contains(&self, key: &str) -> (r: bool)
        requires
            self.wf(),
        ensures
            r == self@.dom().contains(key@),
    {
        match &self._map {
            None => false,
            Some(map) => {
                let kc = chars_of(key);
                map.contains_key(kc.as_slice())
            },
        }
    }
}

/// After `set(key, val)`, a lookup under the stored key (the key in lower
/// case, unless the map is case-sensitive) finds `val` first and alone, and
/// after `append(key, val)` `val` is its last value.
pub proof fn law_stored_key_read_after_write(
    m: Map<Seq<char>, Seq<Seq<char>>>,
    stored: Seq<char>,
    val: Seq<char>,
)
    ensures
        first_value(m.insert(stored, seq![val]), stored) == Some(val),
        values_or_empty(m.insert(stored, seq![val]), stored) == seq![val],
        values_or_empty(m.insert(stored, values_or_empty(m, stored).push(val)), stored).last() == val,
        values_or_empty(m.insert(stored, values_or_empty(m, stored).push(val)), stored).len()
            == values_or_empty(m, stored).len() + 1,
{
}

} // verus!
