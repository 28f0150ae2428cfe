//! Message headers keyed by their Unicode lower-cased name, with the parsed
//! `content-length` and `content-encoding` kept once computed.
use vstd::prelude::*;
use vstd::string::StringExecFns;

use crate::http::body::CompressionType;
use crate::http::headers::{item_chunked, item_chunked_exec};
use crate::listmap::{assoc_map, pair_view, ListMap};
use crate::text::{
    chars_eq, chars_of, decimal, first_some, int_error_message, int_error_text,
    lemma_first_some_at, lemma_first_some_none, lemma_parse_decimal, parse_usize,
    parse_usize_spec, split_on, split_ranges, string_from_range, to_lowercase, trim, trim_bounds,
    unicode_lowercase, usize_to_string, all_ascii, ascii_lower, is_ws, lemma_split_without_sep,
    lemma_trim_plain,
};
use crate::utils::multi_values_map::first_value;

verus! {

/// The key under which a name is stored.
pub open spec fn key_of(name: Seq<char>) -> Seq<char> {
    unicode_lowercase(name)
}

/// The non-empty trimmed piece of a value, if the piece is not blank.
pub open spec fn nonblank(p: Seq<char>) -> Option<Seq<char>> {
    if trim(p).len() > 0 {
        Some(trim(p))
    } else {
        None
    }
}

/// The first non-blank comma-separated piece of one value.
pub open spec fn first_piece(v: Seq<char>) -> Option<Seq<char>> {
    first_some(split_on(v, ','), |p: Seq<char>| nonblank(p))
}

/// The first non-blank comma-separated piece among the values, in order.
pub open spec fn first_token(vs: Seq<Seq<char>>) -> Option<Seq<char>> {
    first_some(vs, |v: Seq<char>| first_piece(v))
}

/// The coding a `content-encoding` token names, or the error message.
pub open spec fn encoding_of_token(t: Seq<char>) -> Result<Option<CompressionType>, Seq<char>> {
    if t == "br"@ {
        Ok(Some(CompressionType::Br))
    } else if t == "deflate"@ {
        Ok(Some(CompressionType::Deflate))
    } else if t == "gzip"@ {
        Ok(Some(CompressionType::Gzip))
    } else {
        Err("unsupported content encoding value, "@ + t)
    }
}

/// The coding that the `content-encoding` values name.
pub open spec fn content_encoding_of(m: Map<Seq<char>, Seq<Seq<char>>>) -> Result<
    Option<CompressionType>,
    Seq<char>,
> {
    let k = key_of("content-encoding"@);
    if m.dom().contains(k) {
        match first_token(m[k]) {
            None => Ok(None),
            Some(t) => encoding_of_token(t),
        }
    } else {
        Ok(None)
    }
}

/// The length that the first `content-length` value states: 0 when absent,
/// the parse error's message when it is not a number.
pub open spec fn content_length_of(m: Map<Seq<char>, Seq<Seq<char>>>) -> Result<usize, Seq<char>> {
    match first_value(m, key_of("content-length"@)) {
        None => Ok(0),
        Some(s) => match parse_usize_spec(s) {
            Ok(v) => Ok(v),
            Err(k) => Err(int_error_text(k)),
        },
    }
}

/// One `name: value\r\n` line for each value.
pub open spec fn field_lines(k: Seq<char>, vs: Seq<Seq<char>>) -> Seq<char>
    decreases vs.len(),
{
    if vs.len() == 0 {
        Seq::empty()
    } else {
        field_lines(k, vs.drop_last()) + k + ": "@ + vs.last() + "\r\n"@
    }
}

/// The lines of all the fields, in order.
pub open spec fn header_lines(p: Seq<(Seq<char>, Seq<Seq<char>>)>) -> Seq<char>
    decreases p.len(),
{
    if p.len() == 0 {
        Seq::empty()
    } else {
        header_lines(p.drop_last()) + field_lines(p.last().0, p.last().1)
    }
}

/// Whether some `transfer-encoding` value asks for chunked transfer.
pub open spec fn header_chunked(m: Map<Seq<char>, Seq<Seq<char>>>) -> bool {
    let k = key_of("transfer-encoding"@);
    m.dom().contains(k) && exists|i: int| 0 <= i < m[k].len() && item_chunked(#[trigger] m[k][i])
}

/// `vs` without the elements equal to `d`.
pub open spec fn without(vs: Seq<Seq<char>>, d: Seq<char>) -> Seq<Seq<char>>
    decreases vs.len(),
{
    if vs.len() == 0 {
        vs
    } else if vs.last() == d {
        without(vs.drop_last(), d)
    } else {
        without(vs.drop_last(), d).push(vs.last())
    }
}

pub open spec fn view_result_len(r: Result<usize, String>) -> Result<usize, Seq<char>> {
    match r {
        Ok(v) => Ok(v),
        Err(s) => Err(s@),
    }
}

pub open spec fn view_result_enc(r: Result<Option<CompressionType>, String>) -> Result<
    Option<CompressionType>,
    Seq<char>,
> {
    match r {
        Ok(v) => Ok(v),
        Err(s) => Err(s@),
    }
}

fn clone_len(r: &Result<usize, String>) -> (c: Result<usize, String>)
    ensures
        view_result_len(c) == view_result_len(*r),
{
    match r {
        Ok(v) => Ok(*v),
        Err(s) => Err(s.clone()),
    }
}

fn clone_enc(r: &Result<Option<CompressionType>, String>) -> (c: Result<
    Option<CompressionType>,
    String,
>)
    ensures
        view_result_enc(c) == view_result_enc(*r),
{
    match r {
        Ok(v) => Ok(*v),
        Err(s) => Err(s.clone()),
    }
}

/// The first non-blank piece of one value, as a character range of `v`.
fn first_piece_exec(v: &[char]) -> (r: Option<(usize, usize)>)
    ensures
        match r {
            Some((a, b)) => a <= b <= v@.len() && first_piece(v@) == Some(
                v@.subrange(a as int, b as int),
            ),
            None => first_piece(v@) is None,
        },
{
    let ranges = split_ranges(v, ',');
    let ghost pieces = split_on(v@, ',');
    let ghost f = |p: Seq<char>| nonblank(p);
    let mut j: usize = 0;
    while j < ranges.len()
        invariant
            j <= ranges.len(),
            ranges@.len() == pieces.len(),
            pieces == split_on(v@, ','),
            f == (|p: Seq<char>| nonblank(p)),
            forall|i: int|
                0 <= i < ranges@.len() ==> ranges@[i].0 <= ranges@[i].1 <= v@.len() && v@.subrange(
                    #[trigger] ranges@[i].0 as int,
                    ranges@[i].1 as int,
                ) == pieces[i],
            forall|k: int| 0 <= k < j ==> f(#[trigger] pieces[k]) is None,
        decreases ranges.len() - j,
    {
        let (lo, hi) = ranges[j];
        assert(v@.subrange(ranges@[j as int].0 as int, ranges@[j as int].1 as int) == pieces[j as int]);
        let (a, b) = trim_bounds(v, lo, hi);
        if a < b {
            proof {
                lemma_first_some_at(pieces, f, j as int);
            }
            return Some((a, b));
        }
        j += 1;
    }
    proof {
        lemma_first_some_none(pieces, f);
    }
    None
}

/// Headers keyed by the Unicode lower-cased name. The parsed
/// `content-length` and `content-encoding` are kept once computed: `clear`
/// and `set_content_length` reset the first, nothing resets the second.
pub struct Header {
    val: Option<ListMap>,
    content_length: Option<Result<usize, String>>,
    content_encoding: Option<Result<Option<CompressionType>, String>>,
}

impl Header {
    pub closed spec fn wf(&self) -> bool {
        self.val matches Some(m) ==> m.wf()
    }

    pub closed spec fn view(&self) -> Map<Seq<char>, Seq<Seq<char>>> {
        match self.val {
            Some(m) => m@,
            None => Map::empty(),
        }
    }

    /// The fields in the order they are kept.
    pub closed spec fn pairs(&self) -> Seq<(Seq<char>, Seq<Seq<char>>)> {
        match self.val {
            Some(m) => m.pairs(),
            None => Seq::empty(),
        }
    }

    /// The fields in order make up the map, each name once.
    pub proof fn lemma_pairs(&self)
        requires
            self.wf(),
        ensures
            assoc_map(self.pairs()) == self@,
    {
        match self.val {
            Some(m) => {},
            None => {
                assert(assoc_map(self.pairs()) =~= Map::<Seq<char>, Seq<Seq<char>>>::empty());
            },
        }
    }

    /// The kept `content-length` result, if computed.
    pub closed spec fn length_cache(&self) -> Option<Result<usize, Seq<char>>> {
        match self.content_length {
            Some(r) => Some(view_result_len(r)),
            None => None,
        }
    }

    /// The kept `content-encoding` result, if computed.
    pub closed spec fn encoding_cache(&self) -> Option<Result<Option<CompressionType>, Seq<char>>> {
        match self.content_encoding {
            Some(r) => Some(view_result_enc(r)),
            None => None,
        }
    }

    pub fn new() -> (h: Self)
        ensures
            h.wf(),
            h@ == Map::<Seq<char>, Seq<Seq<char>>>::empty(),
            h.length_cache() is None,
            h.encoding_cache() is None,
    {
        return Self { val: None, content_length: None, content_encoding: None };
    }

    /// Whether the lower-cased name has at least one value.
    pub fn contains(&self, key: &str) -> (r: bool)
        requires
            self.wf(),
        ensures
            r == (self@.dom().contains(key_of(key@)) && self@[key_of(key@)].len() > 0),
            all_ascii(key@) ==> key_of(key@) == ascii_lower(key@),
    {
        let key = to_lowercase(key);
        if let Some(map) = &self.val {
            let kc = chars_of(key.as_str());
            if let Some(vs) = map.get(kc.as_slice()) {
                return vs.len() > 0;
            }
        }
        return false;
    }

    /// Adds a value after those of the lower-cased name.
    pub fn add(&mut self, key: &str, val: &str)
        requires
            old(self).wf(),
        ensures
            final(self).wf(),
            final(self)@ == old(self)@.insert(
                key_of(key@),
                if old(self)@.dom().contains(key_of(key@)) {
                    old(self)@[key_of(key@)].push(val@)
                } else {
                    seq![val@]
                },
            ),
            final(self).length_cache() == old(self).length_cache(),
            final(self).encoding_cache() == old(self).encoding_cache(),
            all_ascii(key@) ==> key_of(key@) == ascii_lower(key@),
    {
        if self.val.is_none() {
            self.val = Some(ListMap::new());
        }
        let key = to_lowercase(key);
        match &mut self.val {
            Some(map) => map.push_value(key.as_str(), val),
            None => {},
        }
    }

    /// Makes `val` the only value of the lower-cased name.
    pub fn set(&mut self, key: &str, val: &str)
        requires
            old(self).wf(),
        ensures
            final(self).wf(),
            final(self)@ == old(self)@.insert(key_of(key@), seq![val@]),
            final(self).length_cache() == old(self).length_cache(),
            final(self).encoding_cache() == old(self).encoding_cache(),
            all_ascii(key@) ==> key_of(key@) == ascii_lower(key@),
    {
        if self.val.is_none() {
            self.val = Some(ListMap::new());
        }
        let key = to_lowercase(key);
        match &mut self.val {
            Some(map) => map.set_value(key.as_str(), val),
            None => {},
        }
    }

    /// With a value, removes every value of the lower-cased name equal to it;
    /// without, removes the name.
    pub fn del(&mut self, key: &str, val: Option<&str>)
        requires
            old(self).wf(),
        ensures
            final(self).wf(),
            final(self)@ == match val {
                Some(dv) => if old(self)@.dom().contains(key_of(key@)) {
                    old(self)@.insert(key_of(key@), without(old(self)@[key_of(key@)], dv@))
                } else {
                    old(self)@
                },
                None => old(self)@.remove(key_of(key@)),
            },
            final(self).length_cache() == old(self).length_cache(),
            final(self).encoding_cache() == old(self).encoding_cache(),
            all_ascii(key@) ==> key_of(key@) == ascii_lower(key@),
    {
        let key = to_lowercase(key);
        match &mut self.val {
            Some(map) => {
                let kc = chars_of(key.as_str());
                match val {
                    Some(dv) => {
                        if let Some(vs) = map.get_mut(kc.as_slice()) {
                            let kept = retain_not_equal(vs, dv);
                            *vs = kept;
                        }
                    },
                    None => {
                        map.remove(kc.as_slice());
                    },
                }
            },
            None => {
                proof {
                    assert(self@ =~= self@.remove(key_of(key@)));
                }
            },
        }
    }

    /// The first value of the lower-cased name.
    pub fn get(&self, key: &str) -> (r: Option<&String>)
        requires
            self.wf(),
        ensures
            match r {
                Some(s) => first_value(self@, key_of(key@)) == Some(s@),
                None => first_value(self@, key_of(key@)) is None,
            },
            all_ascii(key@) ==> key_of(key@) == ascii_lower(key@),
    {
        return match self.getall(key) {
            Some(vs) => {
                if vs.len() > 0 {
                    Some(&vs[0])
                } else {
                    None
                }
            },
            None => None,
        };
    }

    /// All values of the lower-cased name.
    pub fn getall(&self, key: &str) -> (r: Option<&Vec<String>>)
        requires
            self.wf(),
        ensures
            r is Some <==> self@.dom().contains(key_of(key@)),
            r matches Some(vs) ==> vs.deep_view() == self@[key_of(key@)],
            all_ascii(key@) ==> key_of(key@) == ascii_lower(key@),
    {
        let key = to_lowercase(key);
        if let Some(map) = &self.val {
            let kc = chars_of(key.as_str());
            return map.get(kc.as_slice());
        }
        return None;
    }

    /// Removes every header and forgets the computed `content-length`.
    pub fn clear(&mut self)
        requires
            old(self).wf(),
        ensures
            final(self).wf(),
            final(self)@ == Map::<Seq<char>, Seq<Seq<char>>>::empty(),
            final(self).length_cache() is None,
            final(self).encoding_cache() == old(self).encoding_cache(),
    {
        match &mut self.val {
            Some(map) => map.clear(),
            None => {},
        }
        self.content_length = None;
    }

    /// The length that `content-length` states (0 when absent), computed on
    /// the first call and kept afterwards.
    pub fn get_content_length(&mut self) -> (r: Result<usize, String>)
        requires
            old(self).wf(),
        ensures
            final(self).wf(),
            final(self)@ == old(self)@,
            final(self).encoding_cache() == old(self).encoding_cache(),
            view_result_len(r) == match old(self).length_cache() {
                Some(c) => c,
                None => content_length_of(old(self)@),
            },
            final(self).length_cache() == Some(view_result_len(r)),
    {
        if self.content_length.is_none() {
            let result: Result<usize, String>;
            if let Some(txt) = self.get("content-length") {
                match parse_usize(txt.as_str()) {
                    Ok(v) => {
                        result = Ok(v);
                    },
                    Err(e) => {
                        result = Err(int_error_message(e));
                    },
                }
            } else {
                result = Ok(0);
            }
            self.content_length = Some(result);
        }
        match &self.content_length {
            Some(c) => clone_len(c),
            None => Ok(0),
        }
    }

    /// Records `size` as the content length and stores its decimal form.
    pub fn set_content_length(&mut self, size: usize)
        requires
            old(self).wf(),
        ensures
            final(self).wf(),
            final(self)@ == old(self)@.insert(key_of("content-length"@), seq![decimal(size as nat)]),
            final(self).length_cache() == Some(Ok::<usize, Seq<char>>(size)),
            final(self).encoding_cache() == old(self).encoding_cache(),
    {
        self.content_length = Some(Ok(size));
        let s = usize_to_string(size);
        self.set("content-length", s.as_str());
    }

    /// The coding that `content-encoding` names, computed on the first call and
    /// kept afterwards.
    pub fn get_content_encoding(&mut self) -> (r: Result<Option<CompressionType>, String>)
        requires
            old(self).wf(),
        ensures
            final(self).wf(),
            final(self)@ == old(self)@,
            final(self).length_cache() == old(self).length_cache(),
            view_result_enc(r) == match old(self).encoding_cache() {
                Some(c) => c,
                None => content_encoding_of(old(self)@),
            },
            final(self).encoding_cache() == Some(view_result_enc(r)),
    {
        if self.content_encoding.is_none() {
            let computed = self.compute_content_encoding();
            self.content_encoding = Some(computed);
        }
        match &self.content_encoding {
            Some(c) => clone_enc(c),
            None => Ok(None),
        }
    }

    fn compute_content_encoding(&self) -> (r: Result<Option<CompressionType>, String>)
        requires
            self.wf(),
        ensures
            view_result_enc(r) == content_encoding_of(self@),
    {
        match self.getall("content-encoding") {
            None => Ok(None),
            Some(vs) => {
                let ghost d = vs.deep_view();
                let ghost f = |v: Seq<char>| first_piece(v);
                let mut i: usize = 0;
                while i < vs.len()
                    invariant
                        i <= vs.len(),
                        d == vs.deep_view(),
                        d.len() == vs.len(),
                        f == (|v: Seq<char>| first_piece(v)),
                        self@.dom().contains(key_of("content-encoding"@)),
                        d == self@[key_of("content-encoding"@)],
                        forall|k: int| 0 <= k < i ==> f(#[trigger] d[k]) is None,
                    decreases vs.len() - i,
                {
                    assert(d[i as int] == vs@[i as int]@);
                    let v = chars_of(vs[i].as_str());
                    match first_piece_exec(v.as_slice()) {
                        Some((a, b)) => {
                            proof {
                                lemma_first_some_at(d, f, i as int);
                            }
                            let t = string_from_range(v.as_slice(), a, b);
                            return token_encoding(&t);
                        },
                        None => {},
                    }
                    i += 1;
                }
                proof {
                    lemma_first_some_none(d, f);
                }
                Ok(None)
            },
        }
    }

    /// The header block: one `name: value` line ending in `\r\n` for each
    /// value of each field, in order.
    pub fn lines_text(&self) -> (r: String)
        ensures
            r@ == header_lines(self.pairs()),
    {
        let mut out = String::new();
        if let Some(map) = &self.val {
            let entries = map.entries();
            let ghost p = map.pairs();
            let mut i: usize = 0;
            while i < entries.len()
                invariant
                    i <= entries.len(),
                    p.len() == entries@.len(),
                    forall|j: int| 0 <= j < p.len() ==> #[trigger] p[j] == pair_view(entries@[j]),
                    out@ == header_lines(p.take(i as int)),
                decreases entries.len() - i,
            {
                let k = &entries[i].0;
                let vs = &entries[i].1;
                let ghost before = out@;
                assert(p[i as int] == pair_view(entries@[i as int]));
                let mut j: usize = 0;
                while j < vs.len()
                    invariant
                        j <= vs.len(),
                        out@ == before + field_lines(k@, vs.deep_view().take(j as int)),
                    decreases vs.len() - j,
                {
                    out.append(k.as_str());
                    out.append(": ");
                    out.append(vs[j].as_str());
                    out.append("\r\n");
                    assert(vs.deep_view().take(j + 1).drop_last() =~= vs.deep_view().take(j as int));
                    assert(vs.deep_view()[j as int] == vs@[j as int]@);
                    j += 1;
                }
                assert(vs.deep_view().take(vs.len() as int) =~= vs.deep_view());
                assert(p.take(i + 1).drop_last() =~= p.take(i as int));
                i += 1;
            }
            assert(p.take(entries.len() as int) =~= p);
        } else {
            assert(self.pairs() =~= Seq::<(Seq<char>, Seq<Seq<char>>)>::empty());
        }
        out
    }

    /// Whether a `transfer-encoding` value asks for chunked transfer.
    pub fn is_chunked(&self) -> (r: bool)
        requires
            self.wf(),
        ensures
            r == header_chunked(self@),
    {
        match self.getall("transfer-encoding") {
            None => false,
            Some(vec) => {
                let ghost vs = vec.deep_view();
                let mut i: usize = 0;
                while i < vec.len()
                    invariant
                        i <= vec.len(),
                        vs == vec.deep_view(),
                        vs.len() == vec.len(),
                        self@.dom().contains(key_of("transfer-encoding"@)),
                        vs == self@[key_of("transfer-encoding"@)],
                        forall|k: int| 0 <= k < i ==> !item_chunked(#[trigger] vs[k]),
                    decreases vec.len() - i,
                {
                    assert(vs[i as int] == vec@[i as int]@);
                    if item_chunked_exec(vec[i].as_str()) {
                        assert(item_chunked(self@[key_of("transfer-encoding"@)][i as int]));
                        return true;
                    }
                    i += 1;
                }
                false
            },
        }
    }

    /// Visits every header name with its values, in the order the names
    /// came (see [`header_visited`]).
    pub fn each<F: FnMut(&String, &Vec<String>)>(&self, mut visitor: F)
        requires
            self.wf(),
            forall|k: &String, v: &Vec<String>| call_requires(visitor, (k, v)),
        ensures
            forall|j: int|
                0 <= j < self.pairs().len() ==> #[trigger] header_visited(visitor, self.pairs()[j]),
    {
        let ghost f0 = visitor;
        let map = match &self.val {
            None => {
                return;
            },
            Some(m) => m,
        };
        let entries = map.entries();
        let ghost ps = self.pairs();
        assert(entries@.map_values(|e: (String, Vec<String>)| pair_view(e)) == ps);
        let mut i: usize = 0;
        while i < entries.len()
            invariant
                i <= entries.len(),
                ps.len() == entries.len(),
                ps == self.pairs(),
                entries@.map_values(|e: (String, Vec<String>)| pair_view(e)) == ps,
                visitor == f0,
                forall|k: &String, v: &Vec<String>| call_requires(f0, (k, v)),
                forall|j: int| 0 <= j < i ==> #[trigger] header_visited(f0, ps[j]),
            decreases entries.len() - i,
        {
            visitor(&entries[i].0, &entries[i].1);
            proof {
                assert(ps[i as int] == pair_view(entries@[i as int]));
                assert(header_visited(f0, ps[i as int]));
            }
            i += 1;
        }
    }
}

/// `visitor` was called with a name and values that view as `entry`.
pub open spec fn header_visited<F: FnMut(&String, &Vec<String>)>(
    visitor: F,
    entry: (Seq<char>, Seq<Seq<char>>),
) -> bool {
    exists|k: &String, v: &Vec<String>|
        k@ == entry.0 && v.deep_view() == entry.1 && #[trigger] call_ensures(visitor, (k, v), ())
}

/// The coding a token names, or the error message naming the token.
fn token_encoding(t: &String) -> (r: Result<Option<CompressionType>, String>)
    ensures
        view_result_enc(r) == encoding_of_token(t@),
{
    let tc = chars_of(t.as_str());
    let br = chars_of("br");
    let deflate = chars_of("deflate");
    let gzip = chars_of("gzip");
    if chars_eq(tc.as_slice(), br.as_slice()) {
        Ok(Some(CompressionType::Br))
    } else if chars_eq(tc.as_slice(), deflate.as_slice()) {
        Ok(Some(CompressionType::Deflate))
    } else if chars_eq(tc.as_slice(), gzip.as_slice()) {
        Ok(Some(CompressionType::Gzip))
    } else {
        let mut msg = crate::text::str_to_string("unsupported content encoding value, ");
        msg.append(t.as_str());
        Err(msg)
    }
}

/// The values that differ from `dv`, in order.
fn retain_not_equal(vs: &Vec<String>, dv: &str) -> (r: Vec<String>)
    ensures
        r.deep_view() == without(vs.deep_view(), dv@),
{
    let d = crate::text::str_to_string(dv);
    let mut out: Vec<String> = Vec::new();
    let mut i: usize = 0;
    while i < vs.len()
        invariant
            i <= vs.len(),
            d@ == dv@,
            out.deep_view() == without(vs.deep_view().take(i as int), dv@),
        decreases vs.len() - i,
    {
        let ghost pre = vs.deep_view().take(i as int);
        let ghost cur = vs.deep_view().take(i + 1);
        assert(cur.drop_last() =~= pre);
        assert(cur.last() == vs@[i as int]@);
        if vs[i] != d {
            let ghost before = out.deep_view();
            out.push(vs[i].clone());
            assert(out.deep_view() =~= before.push(vs@[i as int]@));
        }
        i += 1;
    }
    assert(vs.deep_view().take(vs.len() as int) =~= vs.deep_view());
    out
}

/// Recording a length and reading it back gives the length.
pub proof fn law_content_length_roundtrip(m: Map<Seq<char>, Seq<Seq<char>>>, size: usize)
    ensures
        content_length_of(m.insert(key_of("content-length"@), seq![decimal(size as nat)])) == Ok::<
            usize,
            Seq<char>,
        >(size),
{
    lemma_parse_decimal(size);
}

/// A `content-encoding` value that is one bare token names its coding:
/// `gzip` gzip, `deflate` deflate and `br` brotli; any other token is
/// refused with a message that names it.
pub proof fn law_content_encoding_tokens(m: Map<Seq<char>, Seq<Seq<char>>>, t: Seq<char>)
    requires
        t.len() > 0,
        forall|i: int| 0 <= i < t.len() ==> #[trigger] t[i] != ',' && !is_ws(t[i]),
    ensures
        ({
            let r = content_encoding_of(m.insert(key_of("content-encoding"@), seq![t]));
            &&& t == "gzip"@ ==> r == Ok::<Option<CompressionType>, Seq<char>>(Some(CompressionType::Gzip))
            &&& t == "deflate"@ ==> r == Ok::<Option<CompressionType>, Seq<char>>(
                Some(CompressionType::Deflate),
            )
            &&& t == "br"@ ==> r == Ok::<Option<CompressionType>, Seq<char>>(Some(CompressionType::Br))
            &&& t != "gzip"@ && t != "deflate"@ && t != "br"@ ==> r == Err::<
                Option<CompressionType>,
                Seq<char>,
            >("unsupported content encoding value, "@ + t)
        }),
{
    lemma_split_without_sep(t, ',');
    lemma_trim_plain(t);
    let vs = seq![t];
    assert(split_on(t, ',').drop_first() =~= Seq::<Seq<char>>::empty());
    assert(first_piece(t) == Some(t));
    assert(vs.drop_first() =~= Seq::<Seq<char>>::empty());
    assert(first_token(vs) == Some(t));
    let m2 = m.insert(key_of("content-encoding"@), vs);
    assert(content_encoding_of(m2) == encoding_of_token(t));
    reveal_strlit("gzip");
    reveal_strlit("deflate");
    reveal_strlit("br");
    assert("gzip"@.len() == 4 && "deflate"@.len() == 7 && "br"@.len() == 2);
}

/// Removing a value leaves none equal to it.
pub proof fn law_del_value_removes_all(vs: Seq<Seq<char>>, d: Seq<char>)
    ensures
        forall|i: int| 0 <= i < without(vs, d).len() ==> #[trigger] without(vs, d)[i] != d,
        without(vs, d).len() <= vs.len(),
    decreases vs.len(),
{
    if vs.len() > 0 {
        law_del_value_removes_all(vs.drop_last(), d);
    }
}

/// ASCII names that differ only in letter case name one header: after
/// `set(a, v)`, `get(b)` finds `v` when `a` and `b` lower-case alike. The
/// `requires` are what `set` and `get` ensure of ASCII names.
pub proof fn law_ascii_names_blind_to_case(
    m: Map<Seq<char>, Seq<Seq<char>>>,
    a: Seq<char>,
    b: Seq<char>,
    v: Seq<char>,
)
    requires
        key_of(a) == ascii_lower(a),
        key_of(b) == ascii_lower(b),
        ascii_lower(a) == ascii_lower(b),
    ensures
        first_value(m.insert(key_of(a), seq![v]), key_of(b)) == Some(v),
{
}

} // verus!
