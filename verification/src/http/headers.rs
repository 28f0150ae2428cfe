//! The header collection of an HTTP message: names are stored in ASCII lower
//! case, each with the list of values in the order they were added.
use vstd::prelude::*;

use crate::http::compress::CompressType;
use crate::listmap::ListMap;
use crate::text::{
    ascii_lower, chars_contains, chars_eq, chars_of, contains, decimal,
    first_some, is_ascii_upper, lemma_first_some_at, lemma_first_some_none, parse_usize,
    parse_usize_spec, range_starts_with, split_on, split_ranges, starts_with,
    to_ascii_lowercase, trim, trim_bounds, usize_to_string, lemma_parse_decimal, trim_start,
    trim_end,
};
use crate::utils::multi_values_map::{first_value, values_or_empty};
use crate::utils::MultiValuesMap;

verus! {

/// The coding that one comma-separated piece (already trimmed) names.
pub open spec fn coding_of_piece(x: Seq<char>) -> Option<CompressType> {
    if starts_with(x, "deflate"@) || starts_with(x, "gzip"@) {
        if x.len() > 0 && x[0] == 'd' {
            Some(CompressType::Deflate)
        } else {
            Some(CompressType::Gzip)
        }
    } else {
        None
    }
}

/// The coding that one header value names: the first piece, after lower
/// casing, splitting on `,` and trimming, that starts with `deflate` or `gzip`.
pub open spec fn item_coding(item: Seq<char>) -> Option<CompressType> {
    first_some(split_on(ascii_lower(item), ','), |p: Seq<char>| coding_of_piece(trim(p)))
}

/// The coding that the values of `key` name: that of the first value naming one.
pub open spec fn compress_type_of(m: Map<Seq<char>, Seq<Seq<char>>>, key: Seq<char>) -> Option<
    CompressType,
> {
    if m.dom().contains(key) {
        first_some(m[key], |x: Seq<char>| item_coding(x))
    } else {
        None
    }
}

/// Whether one `Transfer-Encoding` value asks for chunked transfer.
pub open spec fn item_chunked(item: Seq<char>) -> bool {
    ||| item == "chunked"@
    ||| contains(item, seq![',']) && exists|j: int|
        0 <= j < split_on(item, ',').len() && starts_with(
            trim(#[trigger] split_on(item, ',')[j]),
            "chunked"@,
        )
}

pub open spec fn is_chunked_of(m: Map<Seq<char>, Seq<Seq<char>>>) -> bool {
    m.dom().contains("transfer-encoding"@) && exists|i: int|
        0 <= i < m["transfer-encoding"@].len() && item_chunked(
            #[trigger] m["transfer-encoding"@][i],
        )
}

/// The body length that the `content-length` value states; 0 when absent or
/// not a number.
pub open spec fn content_length_of(m: Map<Seq<char>, Seq<Seq<char>>>) -> usize {
    match first_value(m, "content-length"@) {
        None => 0,
        Some(s) => match parse_usize_spec(s) {
            Ok(v) => v,
            Err(_) => 0,
        },
    }
}

/// The token that names a coding in `Content-Encoding`.
pub open spec fn coding_name(ct: CompressType) -> Seq<char> {
    match ct {
        CompressType::Gzip => "gzip"@,
        CompressType::Deflate => "deflate"@,
    }
}

pub proof fn lemma_ascii_lower_noop(s: Seq<char>)
    requires
        forall|i: int| 0 <= i < s.len() ==> !is_ascii_upper(#[trigger] s[i]),
    ensures
        ascii_lower(s) == s,
{
    assert(ascii_lower(s) =~= s);
}

proof fn lemma_lower_names()
    ensures
        ascii_lower("content-length"@) == "content-length"@,
        ascii_lower("content-type"@) == "content-type"@,
        ascii_lower("content-encoding"@) == "content-encoding"@,
{
    reveal_strlit("content-length");
    reveal_strlit("content-type");
    reveal_strlit("content-encoding");
    lemma_ascii_lower_noop("content-length"@);
    lemma_ascii_lower_noop("content-type"@);
    lemma_ascii_lower_noop("content-encoding"@);
}

/// The coding named by one header value.
fn item_coding_exec(item: &str) -> (r: Option<CompressType>)
    ensures
        r == item_coding(item@),
{
    let lower = to_ascii_lowercase(item);
    let v = chars_of(lower.as_str());
    let ranges = split_ranges(v.as_slice(), ',');
    let defl = chars_of("deflate");
    let gz = chars_of("gzip");
    let ghost pieces = split_on(v@, ',');
    let ghost f = |p: Seq<char>| coding_of_piece(trim(p));
    let mut j: usize = 0;
    while j < ranges.len()
        invariant
            j <= ranges.len(),
            ranges@.len() == pieces.len(),
            pieces == split_on(v@, ','),
            v@ == ascii_lower(item@),
            defl@ == "deflate"@,
            gz@ == "gzip"@,
            f == (|p: Seq<char>| coding_of_piece(trim(p))),
            forall|i: int|
                0 <= i < ranges@.len() ==> ranges@[i].0 <= ranges@[i].1 <= v@.len() && v@.subrange(
                    #[trigger] ranges@[i].0 as int,
                    ranges@[i].1 as int,
                ) == pieces[i],
            forall|k: int| 0 <= k < j ==> f(#[trigger] pieces[k]) is None,
        decreases ranges.len() - j,
    {
        let (lo, hi) = ranges[j];
        assert(v@.subrange(ranges@[j as int].0 as int, ranges@[j as int].1 as int) == pieces[j as int]);
        let (a, b) = trim_bounds(v.as_slice(), lo, hi);
        let ghost x = v@.subrange(a as int, b as int);
        assert(x == trim(pieces[j as int]));
        if range_starts_with(v.as_slice(), a, b, defl.as_slice()) || range_starts_with(
            v.as_slice(),
            a,
            b,
            gz.as_slice(),
        ) {
            let r = if a < b && v[a] == 'd' {
                CompressType::Deflate
            } else {
                CompressType::Gzip
            };
            proof {
                assert(a < b ==> x[0] == v@[a as int]);
                lemma_first_some_at(pieces, f, j as int);
            }
            return Some(r);
        }
        j += 1;
    }
    proof {
        lemma_first_some_none(pieces, f);
    }
    None
}

/// Whether one `Transfer-Encoding` value asks for chunked transfer.
pub(crate) fn item_chunked_exec(item: &str) -> (r: bool)
    ensures
        r == item_chunked(item@),
{
    let v = chars_of(item);
    let ch = chars_of("chunked");
    if chars_eq(v.as_slice(), ch.as_slice()) {
        return true;
    }
    let comma = vec![','];
    assert(comma@ =~= seq![',']);
    if !chars_contains(v.as_slice(), comma.as_slice()) {
        return false;
    }
    let ranges = split_ranges(v.as_slice(), ',');
    let ghost pieces = split_on(v@, ',');
    let mut j: usize = 0;
    while j < ranges.len()
        invariant
            j <= ranges.len(),
            ranges@.len() == pieces.len(),
            pieces == split_on(v@, ','),
            v@ == item@,
            ch@ == "chunked"@,
            contains(item@, seq![',']),
            forall|i: int|
                0 <= i < ranges@.len() ==> ranges@[i].0 <= ranges@[i].1 <= v@.len() && v@.subrange(
                    #[trigger] ranges@[i].0 as int,
                    ranges@[i].1 as int,
                ) == pieces[i],
            forall|k: int| 0 <= k < j ==> !starts_with(trim(#[trigger] pieces[k]), "chunked"@),
        decreases ranges.len() - j,
    {
        let (lo, hi) = ranges[j];
        assert(v@.subrange(ranges@[j as int].0 as int, ranges@[j as int].1 as int) == pieces[j as int]);
        let (a, b) = trim_bounds(v.as_slice(), lo, hi);
        if range_starts_with(v.as_slice(), a, b, ch.as_slice()) {
            assert(starts_with(trim(split_on(item@, ',')[j as int]), "chunked"@));
            return true;
        }
        j += 1;
    }
    false
}

/// Headers of a message. Names given to `append`/`set` are stored in ASCII
/// lower case; lookups compare names exactly as given.
pub struct Headers {
    map: Option<MultiValuesMap>,
}

impl Default for Headers {
    fn default() -> (h: Self)
        ensures
            h.wf(),
            h@ == Map::<Seq<char>, Seq<Seq<char>>>::empty(),
    {
        Headers { map: None }
    }
}

impl Headers {
    pub closed spec fn wf(&self) -> bool {
        self.map matches Some(m) ==> m.wf() && !m.is_case_sensitive()
    }

    pub closed spec fn view(&self) -> Map<Seq<char>, Seq<Seq<char>>> {
        match self.map {
            Some(m) => m@,
            None => Map::empty(),
        }
    }

    /// Removes every header.
    pub fn clear(&mut self)
        requires
            old(self).wf(),
        ensures
            final(self).wf(),
            final(self)@ == Map::<Seq<char>, Seq<Seq<char>>>::empty(),
    {
        match &mut self.map {
            Some(map) => {
                map.clear();
            },
            None => {},
        }
    }

    /// The stored headers, once any was added.
    pub fn map(&self) -> (r: Option<&ListMap>)
        requires
            self.wf(),
        ensures
            r matches Some(m) ==> m.wf() && m@ == self@,
            r is None ==> self@ == Map::<Seq<char>, Seq<Seq<char>>>::empty(),
    {
        match &self.map {
            None => None,
            Some(map) => map.map(),
        }
    }

    /// Adds a value after those already stored under the lower-cased name.
    pub fn append(&mut self, k: &str, v: &str)
        requires
            old(self).wf(),
        ensures
            final(self).wf(),
            final(self)@ == old(self)@.insert(
                ascii_lower(k@),
                values_or_empty(old(self)@, ascii_lower(k@)).push(v@),
            ),
    {
        match &mut self.map {
            None => {
                let mut map = MultiValuesMap::with_case(false);
                map.append(k, v);
                self.map = Some(map);
            },
            Some(map) => {
                map.append(k, v);
            },
        }
    }

    /// Makes `v` the only value stored under the lower-cased name.
    pub fn set(&mut self, k: &str, v: &str)
        requires
            old(self).wf(),
        ensures
            final(self).wf(),
            final(self)@ == old(self)@.insert(ascii_lower(k@), seq![v@]),
    {
        match &mut self.map {
            None => {
                let mut map = MultiValuesMap::with_case(false);
                map.append(k, v);
                self.map = Some(map);
                assert(values_or_empty(Map::<Seq<char>, Seq<Seq<char>>>::empty(), ascii_lower(k@)).push(
                    v@,
                ) =~= seq![v@]);
            },
            Some(map) => {
                map.set(k, v);
            },
        }
    }

    /// Removes the header named exactly `k`.
    pub fn remove(&mut self, k: &str)
        requires
            old(self).wf(),
        ensures
            final(self).wf(),
            final(self)@ == old(self)@.remove(k@),
    {
        match &mut self.map {
            None => {
                assert(self@ =~= self@.remove(k@));
            },
            Some(map) => {
                map.remove(k);
            },
        }
    }

    /// Whether a header named exactly `k` is stored.
    pub fn contains(&self, k: &str) -> (r: bool)
        requires
            self.wf(),
        ensures
            r == self@.dom().contains(k@),
    {
        match &self.map {
            None => false,
            Some(map) => map.contains(k),
        }
    }

    /// The first value of the header named exactly `k`.
    pub fn get(&self, k: &str) -> (r: Option<&String>)
        requires
            self.wf(),
        ensures
            match r {
                Some(s) => first_value(self@, k@) == Some(s@),
                None => first_value(self@, k@) is None,
            },
    {
        match &self.map {
            None => None,
            Some(map) => map.get(k),
        }
    }

    /// All values of the header named exactly `k`.
    pub fn get_all(&self, k: &str) -> (r: Option<&Vec<String>>)
        requires
            self.wf(),
        ensures
            r is Some <==> self@.dom().contains(k@),
            r matches Some(vs) ==> vs.deep_view() == self@[k@],
    {
        match &self.map {
            None => None,
            Some(map) => map.get_all(k),
        }
    }

    /// All values of the header named exactly `k`, for changing them in place.
    pub fn get_all_mut(&mut self, k: &str) -> (r: Option<&mut Vec<String>>)
        requires
            old(self).wf(),
        ensures
            r is Some <==> old(self)@.dom().contains(k@),
            r matches Some(vs) ==> vs.deep_view() == old(self)@[k@] && final(self).wf()
                && final(self)@ == old(self)@.insert(k@, final(vs).deep_view()),
            r is None ==> *final(self) == *old(self),
    {
        match &mut self.map {
            None => None,
            Some(map) => map.get_all_mut(k),
        }
    }

    /// The value of `content-length`, or 0 when it is absent or not a number.
    pub fn content_length(&self) -> (n: usize)
        requires
            self.wf(),
        ensures
            n == content_length_of(self@),
    {
        let l: usize;
        match self.get("content-length") {
            None => {
                l = 0;
            },
            Some(s) => match parse_usize(s.as_str()) {
                Ok(v) => {
                    l = v;
                },
                Err(_) => {
                    l = 0;
                },
            },
        }
        l
    }

    /// Sets `content-length` to the decimal form of `len`.
    pub fn set_content_length(&mut self, len: usize)
        requires
            old(self).wf(),
        ensures
            final(self).wf(),
            final(self)@ == old(self)@.insert("content-length"@, seq![decimal(len as nat)]),
    {
        proof {
            lemma_lower_names();
        }
        let s = usize_to_string(len);
        self.set("content-length", s.as_str());
    }

    /// The first value of `content-type`.
    pub fn content_type(&self) -> (r: Option<&String>)
        requires
            self.wf(),
        ensures
            match r {
                Some(s) => first_value(self@, "content-type"@) == Some(s@),
                None => first_value(self@, "content-type"@) is None,
            },
    {
        self.get("content-type")
    }

    /// Makes `val` the only value of `content-type`.
    pub fn set_content_type(&mut self, val: &str)
        requires
            old(self).wf(),
        ensures
            final(self).wf(),
            final(self)@ == old(self)@.insert("content-type"@, seq![val@]),
    {
        proof {
            lemma_lower_names();
        }
        self.set("content-type", val)
    }

    /// The coding that `content-encoding` names.
    pub fn content_encoding(&self) -> (r: Option<CompressType>)
        requires
            self.wf(),
        ensures
            r == compress_type_of(self@, "content-encoding"@),
    {
        self.compress_type("content-encoding")
    }

    /// The coding that `accept-encoding` names first.
    pub fn accept_encoding(&self) -> (r: Option<CompressType>)
        requires
            self.wf(),
        ensures
            r == compress_type_of(self@, "accept-encoding"@),
    {
        self.compress_type("accept-encoding")
    }

    fn compress_type(&self, key: &str) -> (r: Option<CompressType>)
        requires
            self.wf(),
        ensures
            r == compress_type_of(self@, key@),
    {
        match self.get_all(key) {
            None => None,
            Some(vec) => {
                let ghost vs = vec.deep_view();
                let ghost f = |x: Seq<char>| item_coding(x);
                let mut i: usize = 0;
                while i < vec.len()
                    invariant
                        i <= vec.len(),
                        vs == vec.deep_view(),
                        vs.len() == vec.len(),
                        self@.dom().contains(key@),
                        vs == self@[key@],
                        f == (|x: Seq<char>| item_coding(x)),
                        forall|k: int| 0 <= k < i ==> f(#[trigger] vs[k]) is None,
                    decreases vec.len() - i,
                {
                    assert(vs[i as int] == vec@[i as int]@);
                    let c = item_coding_exec(vec[i].as_str());
                    if c.is_some() {
                        proof {
                            lemma_first_some_at(vs, f, i as int);
                        }
                        return c;
                    }
                    i += 1;
                }
                proof {
                    lemma_first_some_none(vs, f);
                }
                None
            },
        }
    }

    /// Names `compress_type` in `content-encoding`.
    pub fn set_content_encoding(&mut self, compress_type: CompressType)
        requires
            old(self).wf(),
        ensures
            final(self).wf(),
            final(self)@ == old(self)@.insert("content-encoding"@, seq![coding_name(compress_type)]),
    {
        proof {
            lemma_lower_names();
        }
        match compress_type {
            CompressType::Gzip => self.set("content-encoding", "gzip"),
            CompressType::Deflate => self.set("content-encoding", "deflate"),
        }
    }

    /// Whether a `transfer-encoding` value asks for chunked transfer.
    pub fn ischunked(&self) -> (r: bool)
        requires
            self.wf(),
        ensures
            r == is_chunked_of(self@),
    {
        let mut v: bool = false;
        match self.get_all("transfer-encoding") {
            None => {},
            Some(vec) => {
                let ghost vs = vec.deep_view();
                let mut i: usize = 0;
                while i < vec.len()
                    invariant_except_break
                        !v,
                        forall|k: int| 0 <= k < i ==> !item_chunked(#[trigger] vs[k]),
                    invariant
                        i <= vec.len(),
                        vs == vec.deep_view(),
                        vs.len() == vec.len(),
                    ensures
                        v ==> exists|k: int| 0 <= k < vs.len() && item_chunked(#[trigger] vs[k]),
                        !v ==> forall|k: int| 0 <= k < vs.len() ==> !item_chunked(#[trigger] vs[k]),
                    decreases vec.len() - i,
                {
                    assert(vs[i as int] == vec@[i as int]@);
                    if item_chunked_exec(vec[i].as_str()) {
                        assert(item_chunked(vs[i as int]));
                        v = true;
                        break;
                    }
                    i += 1;
                }
            },
        }
        v
    }
}

/// Setting the content length and reading it back gives the length.
pub proof fn law_content_length_roundtrip(m: Map<Seq<char>, Seq<Seq<char>>>, len: usize)
    ensures
        content_length_of(m.insert("content-length"@, seq![decimal(len as nat)])) == len,
{
    lemma_parse_decimal(len);
}

/// Setting a value makes it the first value of the lower-cased name.
pub proof fn law_set_then_get(m: Map<Seq<char>, Seq<Seq<char>>>, k: Seq<char>, v: Seq<char>)
    ensures
        first_value(m.insert(ascii_lower(k), seq![v]), ascii_lower(k)) == Some(v),
{
}

/// Appending keeps the earlier values and puts the new one last.
pub proof fn law_append_keeps_values(
    m: Map<Seq<char>, Seq<Seq<char>>>,
    k: Seq<char>,
    v: Seq<char>,
)
    ensures
        ({
            let n = m.insert(ascii_lower(k), values_or_empty(m, ascii_lower(k)).push(v));
            &&& n.dom().contains(ascii_lower(k))
            &&& n[ascii_lower(k)].len() == values_or_empty(m, ascii_lower(k)).len() + 1
            &&& n[ascii_lower(k)].last() == v
            &&& n[ascii_lower(k)].drop_last() == values_or_empty(m, ascii_lower(k))
        }),
{
    let n = m.insert(ascii_lower(k), values_or_empty(m, ascii_lower(k)).push(v));
    assert(n[ascii_lower(k)].drop_last() =~= values_or_empty(m, ascii_lower(k)));
}

/// Naming a coding in `content-encoding` and reading it back gives the coding.
pub proof fn law_content_encoding_roundtrip(m: Map<Seq<char>, Seq<Seq<char>>>, ct: CompressType)
    ensures
        compress_type_of(
            m.insert("content-encoding"@, seq![coding_name(ct)]),
            "content-encoding"@,
        ) == Some(ct),
{
    let name = coding_name(ct);
    reveal_strlit("gzip");
    reveal_strlit("deflate");
    lemma_ascii_lower_noop(name);
    lemma_no_comma_split(name);
    lemma_no_ws_trim(name);
    let f = |p: Seq<char>| coding_of_piece(trim(p));
    assert(name.subrange(0, name.len() as int) =~= name);
    assert(split_on(name, ',') =~= seq![name]);
    assert(f(name) == Some(ct));
    lemma_first_some_at(seq![name], f, 0);
    let g = |x: Seq<char>| item_coding(x);
    assert(g(name) == Some(ct));
    lemma_first_some_at(seq![name], g, 0);
}

proof fn lemma_no_comma_split(s: Seq<char>)
    requires
        forall|i: int| 0 <= i < s.len() ==> #[trigger] s[i] != ',',
    ensures
        split_on(s, ',') == seq![s],
    decreases s.len(),
{
    if s.len() > 0 {
        let t = s.drop_last();
        assert forall|i: int| 0 <= i < t.len() implies #[trigger] t[i] != ',' by {
            assert(t[i] == s[i]);
        }
        lemma_no_comma_split(t);
        assert(t.push(s.last()) =~= s);
    } else {
        assert(s =~= Seq::<char>::empty());
    }
}

proof fn lemma_no_ws_trim(s: Seq<char>)
    requires
        s.len() > 0,
        !crate::text::is_ws(s[0]),
        !crate::text::is_ws(s.last()),
    ensures
        trim(s) == s,
{
    assert(trim_start(s) == s);
    assert(trim_end(s) == s);
}

} // verus!
