//! A multi-valued map whose new keys are stored in ASCII lower case while
//! every lookup, including the one `append` and `set` make first, uses the
//! key as given.
use vstd::prelude::*;

use crate::listmap::ListMap;
use crate::text::{ascii_lower, chars_of, to_ascii_lowercase};
use crate::utils::multi_values_map::{first_value, values_or_empty};

verus! {

/// What `append` leaves: the value goes after those of `key` when `key` is
/// present as given; otherwise the lower-cased key gets `[val]`, replacing
/// whatever it held.
pub open spec fn appended(
    m: Map<Seq<char>, Seq<Seq<char>>>,
    key: Seq<char>,
    val: Seq<char>,
) -> Map<Seq<char>, Seq<Seq<char>>> {
    if m.dom().contains(key) {
        m.insert(key, m[key].push(val))
    } else {
        m.insert(ascii_lower(key), seq![val])
    }
}

/// What `set` leaves: `[val]` under `key` when present as given, otherwise
/// under the lower-cased key.
pub open spec fn set_to(
    m: Map<Seq<char>, Seq<Seq<char>>>,
    key: Seq<char>,
    val: Seq<char>,
) -> Map<Seq<char>, Seq<Seq<char>>> {
    if m.dom().contains(key) {
        m.insert(key, seq![val])
    } else {
        m.insert(ascii_lower(key), seq![val])
    }
}

#[derive(Debug)]
pub struct MultiValuesMap(Option<ListMap>);

impl MultiValuesMap {
    pub closed spec fn wf(&self) -> bool {
        self.0 matches Some(m) ==> m.wf()
    }

    pub closed spec fn view(&self) -> Map<Seq<char>, Seq<Seq<char>>> {
        match self.0 {
            Some(m) => m@,
            None => Map::empty(),
        }
    }

    pub fn new() -> (m: Self)
        ensures
            m.wf(),
            m@ == Map::<Seq<char>, Seq<Seq<char>>>::empty(),
    {
        Self(None)
    }

    /// Adds `val` to `key`; see [`appended`].
    pub fn append(&mut self, key: &str, val: &str)
        requires
            old(self).wf(),
        ensures
            final(self).wf(),
            final(self)@ == appended(old(self)@, key@, val@),
    {
        match &mut self.0 {
            None => {
                let mut map = ListMap::new();
                let lower = to_ascii_lowercase(key);
                map.set_value(lower.as_str(), val);
                self.0 = Some(map);
            },
            Some(map) => {
                let kc = chars_of(key);
                match map.get_mut(kc.as_slice()) {
                    None => {
                        let lower = to_ascii_lowercase(key);
                        map.set_value(lower.as_str(), val);
                    },
                    Some(vec) => {
                        let ghost before = vec.deep_view();
                        vec.push(crate::text::str_to_string(val));
                        assert(vec.deep_view() =~= before.push(val@));
                    },
                }
            },
        }
    }

    /// Makes `val` the only value of `key`; see [`set_to`].
    pub fn set(&mut self, key: &str, val: &str)
        requires
            old(self).wf(),
        ensures
            final(self).wf(),
            final(self)@ == set_to(old(self)@, key@, val@),
    {
        if self.0.is_none() {
            self.append(key, val);
            return ;
        }
        match &mut self.0 {
            None => {},
            Some(map) => {
                let kc = chars_of(key);
                match map.get_mut(kc.as_slice()) {
                    None => {
                        let lower = to_ascii_lowercase(key);
                        map.set_value(lower.as_str(), val);
                    },
                    Some(vec) => {
                        vec.clear();
                        vec.push(crate::text::str_to_string(val));
                        assert(vec.deep_view() =~= seq![val@]);
                    },
                }
            },
        }
    }

    /// The first value of `key`.
    pub fn get(&self, key: &str) -> (r: Option<&String>)
        requires
            self.wf(),
        ensures
            match r {
                Some(s) => first_value(self@, key@) == Some(s@),
                None => first_value(self@, key@) is None,
            },
    {
        match &self.0 {
            None => None,
            Some(map) => {
                let kc = chars_of(key);
                match map.get(kc.as_slice()) {
                    None => None,
                    Some(vec) => {
                        if vec.len() > 0 {
                            Some(&vec[0])
                        } else {
                            None
                        }
                    },
                }
            },
        }
    }

    /// All values of `key`.
    pub fn getall(&self, key: &str) -> (r: Option<&Vec<String>>)
        requires
            self.wf(),
        ensures
            r is Some <==> self@.dom().contains(key@),
            r matches Some(vs) ==> vs.deep_view() == self@[key@],
    {
        match &self.0 {
            None => None,
            Some(map) => {
                let kc = chars_of(key);
                map.get(kc.as_slice())
            },
        }
    }

    /// All values of `key`, for changing them in place.
    pub fn getallmut(&mut self, key: &str) -> (r: Option<&mut Vec<String>>)
        requires
            old(self).wf(),
        ensures
            r is Some <==> old(self)@.dom().contains(key@),
            r matches Some(vs) ==> vs.deep_view() == old(self)@[key@] && final(self).wf()
                && final(self)@ == old(self)@.insert(key@, final(vs).deep_view()),
            r is None ==> *final(self) == *old(self),
    {
        match &mut self.0 {
            None => None,
            Some(map) => {
                let kc = chars_of(key);
                map.get_mut(kc.as_slice())
            },
        }
    }

    /// Removes `key` and its values.
    pub fn remove(&mut self, key: &str)
        requires
            old(self).wf(),
        ensures
            final(self).wf(),
            final(self)@ == old(self)@.remove(key@),
    {
        match &mut self.0 {
            None => {
                assert(self@ =~= self@.remove(key@));
            },
            Some(map) => {
                let kc = chars_of(key);
                map.remove(kc.as_slice());
            },
        }
    }

    /// Number of values of `key`.
    pub fn count(&self, key: &str) -> (n: usize)
        requires
            self.wf(),
        ensures
            n == values_or_empty(self@, key@).len(),
    {
        match self.getall(key) {
            None => 0,
            Some(vec) => vec.len(),
        }
    }

    /// Whether `key` is present.
    pub fn contains(&self, key: &str) -> (r: bool)
        requires
            self.wf(),
        ensures
            r == self@.dom().contains(key@),
    {
        match &self.0 {
            None => false,
            Some(map) => {
                let kc = chars_of(key);
                map.contains_key(kc.as_slice())
            },
        }
    }
}

/// Appending under a key that is present keeps its values and adds the new
/// one last; the count grows by one.
pub proof fn law_append_present(m: Map<Seq<char>, Seq<Seq<char>>>, key: Seq<char>, val: Seq<char>)
    requires
        m.dom().contains(key),
    ensures
        values_or_empty(appended(m, key, val), key) == m[key].push(val),
        values_or_empty(appended(m, key, val), key).len() == values_or_empty(m, key).len() + 1,
{
}

/// After `set`, the lower-cased key, or the key itself when it was present,
/// holds exactly the new value.
pub proof fn law_set_then_get(m: Map<Seq<char>, Seq<Seq<char>>>, key: Seq<char>, val: Seq<char>)
    ensures
        m.dom().contains(key) ==> first_value(set_to(m, key, val), key) == Some(val),
        !m.dom().contains(key) ==> first_value(set_to(m, key, val), ascii_lower(key)) == Some(
            val,
        ),
{
}

} // verus!
