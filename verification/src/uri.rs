//! Request targets: splitting a raw URI into its parts, cleaning its path,
//! and percent-encoding.
use vstd::prelude::*;
use vstd::string::{StringExecFns, StringSliceAdditionalSpecFns};
use vstd::utf8::{encode_utf8, is_char_boundary};

use crate::text::{
    chars_of, ends_with, parse_uint, parse_uint_spec, push_char, split_on, split_ranges,
    string_from_chars, trim, trim_bounds, trim_end, trim_start,
};
use crate::utils::MultiValuesMap;

verus! {

// ---------------------------------------------------------------------------
// Searching the bytes of the raw text
// ---------------------------------------------------------------------------
/// The first position in `[lo, hi)` where `pat` occurs, as `str::find` reports it.
pub open spec fn first_occ(b: Seq<u8>, lo: int, hi: int, pat: Seq<u8>) -> Option<int>
    decreases hi - lo,
{
    if lo < 0 || lo + pat.len() > hi || hi > b.len() {
        None
    } else if b.subrange(lo, lo + pat.len()) == pat {
        Some(lo)
    } else if lo >= hi {
        None
    } else {
        first_occ(b, lo + 1, hi, pat)
    }
}

/// The last position in `[lo, hi)` holding byte `c`, as `str::rfind` reports it.
pub open spec fn last_occ(b: Seq<u8>, lo: int, hi: int, c: u8) -> Option<int>
    decreases hi - lo,
{
    if hi <= lo || hi > b.len() {
        None
    } else if b[hi - 1] == c {
        Some(hi - 1)
    } else {
        last_occ(b, lo, hi - 1, c)
    }
}

pub proof fn lemma_first_occ_range(b: Seq<u8>, lo: int, hi: int, pat: Seq<u8>)
    ensures
        first_occ(b, lo, hi, pat) matches Some(i) ==> lo <= i && i + pat.len() <= hi && hi
            <= b.len() && b.subrange(i, i + pat.len()) == pat,
    decreases hi - lo,
{
    if !(lo < 0 || lo + pat.len() > hi || hi > b.len()) && b.subrange(lo, lo + pat.len()) != pat
        && lo < hi {
        lemma_first_occ_range(b, lo + 1, hi, pat);
    }
}

pub proof fn lemma_last_occ_range(b: Seq<u8>, lo: int, hi: int, c: u8)
    ensures
        last_occ(b, lo, hi, c) matches Some(i) ==> lo <= i < hi && b[i] == c,
    decreases hi - lo,
{
    if hi > lo && hi <= b.len() && b[hi - 1] != c {
        lemma_last_occ_range(b, lo, hi - 1, c);
    }
}

fn find_bytes(b: &[u8], lo: usize, hi: usize, pat: &[u8]) -> (r: Option<usize>)
    requires
        lo <= hi <= b.len(),
    ensures
        match r {
            Some(i) => first_occ(b@, lo as int, hi as int, pat@) == Some(i as int),
            None => first_occ(b@, lo as int, hi as int, pat@) is None,
        },
{
    if pat.len() > hi - lo {
        return None;
    }
    let last = hi - pat.len();
    let mut i: usize = lo;
    while i <= last
        invariant
            lo <= i,
            pat.len() <= hi - lo,
            last == hi - pat.len(),
            hi <= b.len(),
            i <= last + 1,
            first_occ(b@, lo as int, hi as int, pat@) == first_occ(b@, i as int, hi as int, pat@),
        decreases last + 1 - i,
    {
        let mut j: usize = 0;
        let mut same = true;
        while j < pat.len()
            invariant
                j <= pat.len(),
                i + pat.len() <= hi <= b.len(),
                same <==> forall|k: int| 0 <= k < j ==> b@[i + k] == pat@[k],
            decreases pat.len() - j,
        {
            if b[i + j] != pat[j] {
                same = false;
            }
            j += 1;
        }
        if same {
            assert(b@.subrange(i as int, i + pat.len()) =~= pat@);
            return Some(i);
        }
        proof {
            let k = choose|k: int| 0 <= k < pat.len() && b@[i + k] != pat@[k];
            assert(b@.subrange(i as int, i + pat.len())[k] != pat@[k]);
        }
        if i == last {
            assert(first_occ(b@, i + 1, hi as int, pat@) is None);
            return None;
        }
        i += 1;
    }
    None
}

fn rfind_byte(b: &[u8], lo: usize, hi: usize, c: u8) -> (r: Option<usize>)
    requires
        lo <= hi <= b.len(),
    ensures
        match r {
            Some(i) => last_occ(b@, lo as int, hi as int, c) == Some(i as int),
            None => last_occ(b@, lo as int, hi as int, c) is None,
        },
{
    let mut j: usize = hi;
    while j > lo
        invariant
            lo <= j <= hi <= b.len(),
            last_occ(b@, lo as int, hi as int, c) == last_occ(b@, lo as int, j as int, c),
        decreases j - lo,
    {
        if b[j - 1] == c {
            return Some(j - 1);
        }
        j -= 1;
    }
    None
}

/// The part of a string between two byte offsets.
///
/// Trusted: calls `str::get` with the byte range `a..b`. Its documentation
/// states that it returns the substring when both offsets lie on character
/// boundaries within the string, and `None` where indexing would panic.
#[verifier::external_body]
pub(crate) fn str_get(s: &str, a: usize, b: usize) -> (r: Option<&str>)
    ensures
        (r is Some) == cut_ok(s.spec_bytes(), a as int, b as int),
        r matches Some(x) ==> x.spec_bytes() == s.spec_bytes().subrange(a as int, b as int),
{
    s.get(a..b)
}

/// Whether `&text[x..y]` can be taken.
pub open spec fn cut_ok(b: Seq<u8>, x: int, y: int) -> bool {
    0 <= x <= y <= b.len() && is_char_boundary(b, x) && is_char_boundary(b, y)
}

// ---------------------------------------------------------------------------
// The parts of a raw URI
// ---------------------------------------------------------------------------
/// The byte ranges of the parts of a raw URI (all empty when not present).
pub struct UriParts {
    pub scheme: (int, int),
    pub username: (int, int),
    pub password: (int, int),
    pub host: (int, int),
    pub port: (int, int),
    pub path: (int, int),
    pub raw_query: (int, int),
    pub fragment: (int, int),
}

pub open spec fn no_parts() -> UriParts {
    UriParts {
        scheme: (0, 0),
        username: (0, 0),
        password: (0, 0),
        host: (0, 0),
        port: (0, 0),
        path: (0, 0),
        raw_query: (0, 0),
        fragment: (0, 0),
    }
}

/// The scheme step: the text before the first `://` is dropped together with
/// the separator, and the scheme is taken, with the same length, from the
/// front of what remains. `None` when that slice cannot be taken.
pub open spec fn step_scheme(b: Seq<u8>) -> Option<(int, UriParts)> {
    match first_occ(b, 0, b.len() as int, seq![58u8, 47u8, 47u8]) {
        None => Some((0, no_parts())),
        Some(idx) => if cut_ok(b, idx + 3, b.len() as int) && cut_ok(b, idx + 3, 2 * idx + 3) {
            Some((idx + 3, UriParts { scheme: (idx + 3, 2 * idx + 3), ..no_parts() }))
        } else {
            None
        },
    }
}

/// The user-information step on the text `[lo, hi)`: the text up to the
/// first `@` is dropped, and the user information is taken, with the length
/// of that dropped text, from the front of what remains and split at its
/// first `:` into user name and password.
pub open spec fn step_auth(b: Seq<u8>, lo: int, hi: int, p: UriParts) -> Option<(int, UriParts)> {
    match first_occ(b, lo, hi, seq![64u8]) {
        None => Some((lo, p)),
        Some(a) => {
            let end = a + 1 + (a - lo);
            if cut_ok(b, a + 1, hi) && cut_ok(b, a + 1, end) {
                match first_occ(b, a + 1, end, seq![58u8]) {
                    None => Some((a + 1, p)),
                    Some(c) => if cut_ok(b, a + 1, c) && cut_ok(b, c + 1, end) {
                        Some((a + 1, UriParts { username: (a + 1, c), password: (c + 1, end), ..p }))
                    } else {
                        None
                    },
                }
            } else {
                None
            }
        },
    }
}

/// The fragment step: from the last `#` to the end.
pub open spec fn step_fragment(b: Seq<u8>, lo: int, hi: int, p: UriParts) -> (int, UriParts) {
    match last_occ(b, lo, hi, 35u8) {
        None => (hi, p),
        Some(f) => (f, UriParts { fragment: (f, hi), ..p }),
    }
}

/// The query step: from the last `?` to the end.
pub open spec fn step_query(b: Seq<u8>, lo: int, hi: int, p: UriParts) -> (int, UriParts) {
    match last_occ(b, lo, hi, 63u8) {
        None => (hi, p),
        Some(q) => (q, UriParts { raw_query: (q, hi), ..p }),
    }
}

/// The path step: from the first `/` to the end.
pub open spec fn step_path(b: Seq<u8>, lo: int, hi: int, p: UriParts) -> (int, UriParts) {
    match first_occ(b, lo, hi, seq![47u8]) {
        None => (hi, p),
        Some(s) => (s, UriParts { path: (s, hi), ..p }),
    }
}

/// The host step: the rest is the host, or host and port around the first `:`.
pub open spec fn step_host(b: Seq<u8>, lo: int, hi: int, p: UriParts) -> UriParts {
    match first_occ(b, lo, hi, seq![58u8]) {
        None => UriParts { host: (lo, hi), ..p },
        Some(c) => UriParts { host: (lo, c), port: (c + 1, hi), ..p },
    }
}

/// How a raw URI splits into parts, each step applied to what the earlier
/// ones left and stopping as soon as nothing is left. `None` when one of
/// the slices the split takes cannot be taken, where slicing the text
/// panics.
pub open spec fn parse_uri(b: Seq<u8>) -> Option<UriParts> {
    if b.len() == 0 {
        Some(no_parts())
    } else {
        match step_scheme(b) {
            None => None,
            Some((lo, p1)) => if lo == b.len() {
                Some(p1)
            } else {
                match step_auth(b, lo, b.len() as int, p1) {
                    None => None,
                    Some((lo2, p2)) => if lo2 == b.len() {
                        Some(p2)
                    } else {
                        let (h3, p3) = step_fragment(b, lo2, b.len() as int, p2);
                        if h3 == lo2 {
                            Some(p3)
                        } else {
                            let (h4, p4) = step_query(b, lo2, h3, p3);
                            if h4 == lo2 {
                                Some(p4)
                            } else {
                                let (h5, p5) = step_path(b, lo2, h4, p4);
                                if h5 == lo2 {
                                    Some(p5)
                                } else {
                                    Some(step_host(b, lo2, h5, p5))
                                }
                            }
                        }
                    },
                }
            },
        }
    }
}

pub open spec fn piece(b: Seq<u8>, r: (int, int)) -> Seq<u8> {
    b.subrange(r.0, r.1)
}

// ---------------------------------------------------------------------------
// The cleaned path
// ---------------------------------------------------------------------------
pub open spec fn remove_char(s: Seq<char>, c: char) -> Seq<char>
    decreases s.len(),
{
    if s.len() == 0 {
        s
    } else if s.last() == c {
        remove_char(s.drop_last(), c)
    } else {
        remove_char(s.drop_last(), c).push(s.last())
    }
}

pub open spec fn map_char(s: Seq<char>, from: char, to: char) -> Seq<char> {
    s.map_values(|x: char| if x == from { to } else { x })
}

/// `str::replace("..", ".")`: each `..`, taken from the left without
/// overlapping, becomes `.`.
pub open spec fn collapse_dots(s: Seq<char>) -> Seq<char>
    decreases s.len(),
{
    if s.len() >= 2 && s[0] == '.' && s[1] == '.' {
        seq!['.'] + collapse_dots(s.skip(2))
    } else if s.len() > 0 {
        seq![s[0]] + collapse_dots(s.drop_first())
    } else {
        s
    }
}

/// Whether a trimmed segment is kept.
pub open spec fn kept_segment(t: Seq<char>) -> bool {
    t.len() > 0 && t != seq!['.']
}

/// Joins the kept trimmed segments, each preceded by `/`.
pub open spec fn join_segments(parts: Seq<Seq<char>>) -> Seq<char>
    decreases parts.len(),
{
    if parts.len() == 0 {
        Seq::empty()
    } else if kept_segment(trim(parts.last())) {
        join_segments(parts.drop_last()) + seq!['/'] + trim(parts.last())
    } else {
        join_segments(parts.drop_last())
    }
}

/// The cleaned path: `~` removed, `\` turned into `/`, `..` collapsed to
/// `.`, blank and `.` segments dropped, at least `/`, and a trailing `/`
/// kept when the raw path had one.
pub open spec fn safe_path(raw: Seq<char>) -> Seq<char> {
    let t = collapse_dots(map_char(remove_char(raw, '~'), '\\', '/'));
    let r = join_segments(split_on(t, '/'));
    let r1 = if r.len() == 0 {
        seq!['/']
    } else {
        r
    };
    if ends_with(raw, seq!['/']) && !ends_with(r1, seq!['/']) {
        r1.push('/')
    } else {
        r1
    }
}

/// The port that the port text states; 0 when empty or not a `u32`.
pub open spec fn port_of(text: Seq<char>) -> u32 {
    match parse_uint_spec(text, u32::MAX as nat) {
        Ok(n) => n as u32,
        Err(_) => 0,
    }
}

/// A raw request target, split into its parts on first use.
pub struct ReadonlyUri {
    _raw: String,
    _scheme: String,
    _username: String,
    _password: String,
    _host: String,
    _port: String,
    _path: String,
    _raw_query: String,
    _fragment: String,
    _parsed: bool,
    _query_parsed: bool,
    _port_num: Option<u32>,
    _safe_path: Option<String>,
}

impl ReadonlyUri {
    /// The raw text.
    pub closed spec fn raw(&self) -> Seq<u8> {
        encode_utf8(self._raw@)
    }

    /// Whether the raw text can be split without a panic.
    pub open spec fn parsable(&self) -> bool {
        parse_uri(self.raw()) is Some
    }

    pub closed spec fn parsed(&self) -> bool {
        self._parsed
    }

    /// Once parsed, each field holds the bytes of its part.
    pub closed spec fn wf(&self) -> bool {
        &&& self._parsed ==> {
            &&& parse_uri(self.raw()) matches Some(p) && {
                let b = self.raw();
                &&& encode_utf8(self._scheme@) == piece(b, p.scheme)
                &&& encode_utf8(self._username@) == piece(b, p.username)
                &&& encode_utf8(self._password@) == piece(b, p.password)
                &&& encode_utf8(self._host@) == piece(b, p.host)
                &&& encode_utf8(self._port@) == piece(b, p.port)
                &&& encode_utf8(self._path@) == piece(b, p.path)
                &&& encode_utf8(self._raw_query@) == piece(b, p.raw_query)
                &&& encode_utf8(self._fragment@) == piece(b, p.fragment)
            }
        }
        &&& !self._parsed ==> self._safe_path is None && self._port_num is None
        &&& self._safe_path matches Some(s) ==> self._parsed && s@ == safe_path(self._path@)
        &&& self._port_num matches Some(n) ==> self._parsed && n == port_of(self._port@)
    }

    /// The bytes of a part, once parsed.
    pub closed spec fn part(&self, f: spec_fn(UriParts) -> (int, int)) -> Seq<u8> {
        piece(self.raw(), f(parse_uri(self.raw()).unwrap()))
    }

    /// The raw path part, once parsed.
    pub closed spec fn path_part(&self) -> Seq<char> {
        self._path@
    }

    /// The raw port part, once parsed.
    pub closed spec fn port_part(&self) -> Seq<char> {
        self._port@
    }

    pub fn new(raw: &str) -> (u: Self)
        ensures
            u.wf(),
            u.raw() == raw.spec_bytes(),
            !u.parsed(),
    {
        Self {
            _raw: raw.to_owned(),
            _scheme: String::new(),
            _username: String::new(),
            _password: String::new(),
            _host: String::new(),
            _port: String::new(),
            _path: String::new(),
            _raw_query: String::new(),
            _fragment: String::new(),
            _port_num: None,
            _parsed: false,
            _query_parsed: false,
            _safe_path: None,
        }
    }

    fn cut(raw: &str, a: usize, b: usize) -> (r: String)
        requires
            cut_ok(raw.spec_bytes(), a as int, b as int),
        ensures
            encode_utf8(r@) == raw.spec_bytes().subrange(a as int, b as int),
    {
        match str_get(raw, a, b) {
            Some(x) => x.to_owned(),
            None => String::new(),
        }
    }

    /// Splits the raw text into its parts (once).
    pub fn parse(&mut self)
        requires
            old(self).wf(),
            old(self).parsable(),
        ensures
            final(self).wf(),
            final(self).parsed(),
            final(self).raw() == old(self).raw(),
            old(self).parsed() ==> *final(self) == *old(self),
            !old(self).parsed() ==> final(self).path_part() == decode_part(old(self).raw(), parse_uri(old(self).raw()).unwrap().path)
                && final(self).port_part() == decode_part(old(self).raw(), parse_uri(old(self).raw()).unwrap().port),
    {
        if self._parsed {
            return ;
        }
        let r = part_ranges(self._raw.as_str());
        let raw = self._raw.as_str();
        let scheme = Self::cut(raw, r.scheme.0, r.scheme.1);
        let username = Self::cut(raw, r.username.0, r.username.1);
        let password = Self::cut(raw, r.password.0, r.password.1);
        let host = Self::cut(raw, r.host.0, r.host.1);
        let port = Self::cut(raw, r.port.0, r.port.1);
        let path = Self::cut(raw, r.path.0, r.path.1);
        let raw_query = Self::cut(raw, r.raw_query.0, r.raw_query.1);
        let fragment = Self::cut(raw, r.fragment.0, r.fragment.1);
        proof {
            lemma_decode_part(self.raw(), r@.path, path@);
            lemma_decode_part(self.raw(), r@.port, port@);
        }
        self._scheme = scheme;
        self._username = username;
        self._password = password;
        self._host = host;
        self._port = port;
        self._path = path;
        self._raw_query = raw_query;
        self._fragment = fragment;
        self._parsed = true;
    }

    /// The scheme part.
    pub fn scheme(&mut self) -> (r: &str)
        requires
            old(self).wf(),
            old(self).parsable(),
        ensures
            final(self).wf(),
            final(self).parsed(),
            final(self).raw() == old(self).raw(),
            encode_utf8(r@) == piece(old(self).raw(), parse_uri(old(self).raw()).unwrap().scheme),
    {
        if !self._parsed {
            self.parse();
        }
        self._scheme.as_str()
    }

    /// The user name part.
    pub fn username(&mut self) -> (r: &str)
        requires
            old(self).wf(),
            old(self).parsable(),
        ensures
            final(self).wf(),
            final(self).parsed(),
            final(self).raw() == old(self).raw(),
            encode_utf8(r@) == piece(old(self).raw(), parse_uri(old(self).raw()).unwrap().username),
    {
        if !self._parsed {
            self.parse();
        }
        self._username.as_str()
    }

    /// The password part.
    pub fn password(&mut self) -> (r: &str)
        requires
            old(self).wf(),
            old(self).parsable(),
        ensures
            final(self).wf(),
            final(self).parsed(),
            final(self).raw() == old(self).raw(),
            encode_utf8(r@) == piece(old(self).raw(), parse_uri(old(self).raw()).unwrap().password),
    {
        if !self._parsed {
            self.parse();
        }
        self._password.as_str()
    }

    /// The host part.
    pub fn host(&mut self) -> (r: &str)
        requires
            old(self).wf(),
            old(self).parsable(),
        ensures
            final(self).wf(),
            final(self).parsed(),
            final(self).raw() == old(self).raw(),
            encode_utf8(r@) == piece(old(self).raw(), parse_uri(old(self).raw()).unwrap().host),
    {
        if !self._parsed {
            self.parse();
        }
        self._host.as_str()
    }

    /// The query part, from `?` on.
    pub fn rawquery(&mut self) -> (r: &str)
        requires
            old(self).wf(),
            old(self).parsable(),
        ensures
            final(self).wf(),
            final(self).parsed(),
            final(self).raw() == old(self).raw(),
            encode_utf8(r@) == piece(old(self).raw(), parse_uri(old(self).raw()).unwrap().raw_query),
    {
        if !self._parsed {
            self.parse();
        }
        self._raw_query.as_str()
    }

    /// The fragment part, from `#` on.
    pub fn fragment(&mut self) -> (r: &str)
        requires
            old(self).wf(),
            old(self).parsable(),
        ensures
            final(self).wf(),
            final(self).parsed(),
            final(self).raw() == old(self).raw(),
            encode_utf8(r@) == piece(old(self).raw(), parse_uri(old(self).raw()).unwrap().fragment),
    {
        if !self._parsed {
            self.parse();
        }
        self._fragment.as_str()
    }

    /// The cleaned path (see [`safe_path`]), computed once.
    pub fn path(&mut self) -> (r: &String)
        requires
            old(self).wf(),
            old(self).parsable(),
        ensures
            final(self).wf(),
            final(self).parsed(),
            final(self).raw() == old(self).raw(),
            r@ == safe_path(decode_part(old(self).raw(), parse_uri(old(self).raw()).unwrap().path)),
    {
        if self._safe_path.is_none() {
            if !self._parsed {
                self.parse();
            }
            let result = clean_path(self._path.as_str());
            self._safe_path = Some(result);
        }
        proof {
            lemma_decode_part(self.raw(), parse_uri(self.raw()).unwrap().path, self._path@);
        }
        match &self._safe_path {
            Some(p) => p,
            None => &self._raw,
        }
    }

    /// The port number; 0 when absent or not a `u32`. Computed once.
    pub fn port(&mut self) -> (r: u32)
        requires
            old(self).wf(),
            old(self).parsable(),
        ensures
            final(self).wf(),
            final(self).parsed(),
            final(self).raw() == old(self).raw(),
            r == port_of(decode_part(old(self).raw(), parse_uri(old(self).raw()).unwrap().port)),
    {
        if !self._parsed {
            self.parse();
        }
        if self._port_num.is_none() {
            let n: u32 = match parse_uint(self._port.as_str(), 0xffff_ffffusize) {
                Ok(v) => v as u32,
                Err(_) => 0,
            };
            self._port_num = Some(n);
        }
        proof {
            lemma_decode_part(self.raw(), parse_uri(self.raw()).unwrap().port, self._port@);
        }
        match self._port_num {
            Some(n) => n,
            None => 0,
        }
    }

    /// The raw text, as characters.
    pub closed spec fn raw_chars(&self) -> Seq<char> {
        self._raw@
    }

    /// What `{:?}` shows of the uri: the raw text, and the raw path once parsed.
    pub open spec fn debug_text_spec(&self) -> Seq<char> {
        if !self.parsed() {
            "Uri(unparsed){raw: `"@ + self.raw_chars() + "`}"@
        } else {
            "Uri{raw: `"@ + self.raw_chars() + "`, path: `"@ + self.path_part() + "`}"@
        }
    }

    /// Whether the raw text splits into parts without a panic.
    pub fn is_parsable(&self) -> (r: bool)
        ensures
            r == self.parsable(),
    {
        uri_parsable(self._raw.as_str())
    }

    /// The debug rendering of the uri.
    pub fn debug_text(&self) -> (r: String)
        ensures
            r@ == self.debug_text_spec(),
    {
        if !self._parsed {
            let mut t = String::from_str("Uri(unparsed){raw: `");
            t.append(self._raw.as_str());
            t.append("`}");
            return t;
        }
        let mut t = String::from_str("Uri{raw: `");
        t.append(self._raw.as_str());
        t.append("`, path: `");
        t.append(self._path.as_str());
        t.append("`}");
        t
    }
}

proof fn lemma_ends_with_slash(s: Seq<char>)
    ensures
        ends_with(s, seq!['/']) == (s.len() > 0 && s[s.len() - 1] == '/'),
{
    if s.len() > 0 {
        let t = s.subrange(s.len() - 1, s.len() as int);
        assert(t =~= seq![s[s.len() - 1]]);
        if t == seq!['/'] {
            assert(t[0] == '/');
        }
    }
}

/// The characters of a part.
pub open spec fn decode_part(b: Seq<u8>, r: (int, int)) -> Seq<char> {
    vstd::utf8::decode_utf8(piece(b, r))
}

proof fn lemma_decode_part(b: Seq<u8>, r: (int, int), s: Seq<char>)
    requires
        encode_utf8(s) == piece(b, r),
    ensures
        decode_part(b, r) == s,
{
    vstd::utf8::encode_utf8_decode_utf8(s);
}

/// The byte ranges of the parts, as computed.
struct PartRanges {
    scheme: (usize, usize),
    username: (usize, usize),
    password: (usize, usize),
    host: (usize, usize),
    port: (usize, usize),
    path: (usize, usize),
    raw_query: (usize, usize),
    fragment: (usize, usize),
}

impl PartRanges {
    spec fn view(&self) -> UriParts {
        UriParts {
            scheme: (self.scheme.0 as int, self.scheme.1 as int),
            username: (self.username.0 as int, self.username.1 as int),
            password: (self.password.0 as int, self.password.1 as int),
            host: (self.host.0 as int, self.host.1 as int),
            port: (self.port.0 as int, self.port.1 as int),
            path: (self.path.0 as int, self.path.1 as int),
            raw_query: (self.raw_query.0 as int, self.raw_query.1 as int),
            fragment: (self.fragment.0 as int, self.fragment.1 as int),
        }
    }
}

pub open spec fn all_cuts_ok(b: Seq<u8>, p: UriParts) -> bool {
    &&& cut_ok(b, p.scheme.0, p.scheme.1)
    &&& cut_ok(b, p.username.0, p.username.1)
    &&& cut_ok(b, p.password.0, p.password.1)
    &&& cut_ok(b, p.host.0, p.host.1)
    &&& cut_ok(b, p.port.0, p.port.1)
    &&& cut_ok(b, p.path.0, p.path.1)
    &&& cut_ok(b, p.raw_query.0, p.raw_query.1)
    &&& cut_ok(b, p.fragment.0, p.fragment.1)
}

proof fn lemma_ascii_boundary(b: Seq<u8>, i: int)
    requires
        vstd::utf8::valid_utf8(b),
        0 <= i <= b.len(),
        i == 0 || i == b.len() || b[i] < 128,
    ensures
        is_char_boundary(b, i),
{
    broadcast use vstd::utf8::is_char_boundary_iff_not_is_continuation_byte;
    broadcast use vstd::utf8::is_char_boundary_start_end_of_seq;

    if 0 < i < b.len() {
        let x = b[i];
        assert(x < 128 ==> !vstd::utf8::is_continuation_byte(x)) by (bit_vector);
    }
}

/// The position just after an ASCII byte is a character boundary.
proof fn lemma_after_ascii_boundary(b: Seq<u8>, i: int)
    requires
        vstd::utf8::valid_utf8(b),
        0 <= i < b.len(),
        b[i] < 128,
    ensures
        is_char_boundary(b, i + 1),
{
    broadcast use vstd::utf8::is_char_boundary_iff_not_is_continuation_byte;
    broadcast use vstd::utf8::is_char_boundary_start_end_of_seq;

    if i + 1 < b.len() {
        lemma_ascii_boundary(b, i);
        vstd::utf8::valid_utf8_split(b, i);
        let t = b.subrange(i, b.len() as int);
        assert(t[0] == b[i]);
        let u = vstd::utf8::pop_first_scalar(t);
        assert(u =~= b.subrange(i + 1, b.len() as int));
        assert(vstd::utf8::valid_utf8(u));
        assert(u[0] == b[i + 1]);
        assert(vstd::utf8::valid_first_scalar(u));
        assert(!vstd::utf8::is_continuation_byte(b[i + 1]));
    }
}

/// What each step of the split may assume of the text and the ranges so far.
pub open spec fn step_ready(b: Seq<u8>, lo: int, hi: int, p: UriParts) -> bool {
    &&& vstd::utf8::valid_utf8(b)
    &&& 0 <= lo <= hi <= b.len()
    &&& is_char_boundary(b, lo)
    &&& is_char_boundary(b, hi)
    &&& all_cuts_ok(b, p)
}

fn scheme_step(bytes: &[u8]) -> (res: (usize, PartRanges))
    requires
        step_scheme(bytes@) is Some,
        step_ready(bytes@, 0, bytes@.len() as int, no_parts()),
    ensures
        step_scheme(bytes@) == Some((res.0 as int, res.1@)),
        step_ready(bytes@, res.0 as int, bytes@.len() as int, res.1@),
{
    let ghost b = bytes@;
    let n = bytes.len();
    let mut r = PartRanges {
        scheme: (0, 0),
        username: (0, 0),
        password: (0, 0),
        host: (0, 0),
        port: (0, 0),
        path: (0, 0),
        raw_query: (0, 0),
        fragment: (0, 0),
    };
    assert(r@ == no_parts());
    let sep: [u8; 3] = [58u8, 47u8, 47u8];
    assert(sep@ =~= seq![58u8, 47u8, 47u8]);
    match find_bytes(bytes, 0, n, &sep) {
        None => (0, r),
        Some(idx) => {
            proof {
                lemma_first_occ_range(b, 0, n as int, sep@);
            }
            r.scheme = (idx + 3, 2 * idx + 3);
            (idx + 3, r)
        },
    }
}

fn auth_step(bytes: &[u8], lo: usize, r: PartRanges) -> (res: (usize, PartRanges))
    requires
        step_auth(bytes@, lo as int, bytes@.len() as int, r@) is Some,
        step_ready(bytes@, lo as int, bytes@.len() as int, r@),
    ensures
        step_auth(bytes@, lo as int, bytes@.len() as int, r@) == Some((res.0 as int, res.1@)),
        step_ready(bytes@, res.0 as int, bytes@.len() as int, res.1@),
{
    let ghost b = bytes@;
    let n = bytes.len();
    let mut r = r;
    let at: [u8; 1] = [64u8];
    assert(at@ =~= seq![64u8]);
    let colon: [u8; 1] = [58u8];
    assert(colon@ =~= seq![58u8]);
    match find_bytes(bytes, lo, n, &at) {
        None => (lo, r),
        Some(a) => {
            proof {
                lemma_first_occ_range(b, lo as int, n as int, at@);
            }
            let end = a + 1 + (a - lo);
            match find_bytes(bytes, a + 1, end, &colon) {
                None => {},
                Some(c) => {
                    proof {
                        lemma_first_occ_range(b, a + 1, end as int, colon@);
                    }
                    r.username = (a + 1, c);
                    r.password = (c + 1, end);
                },
            }
            (a + 1, r)
        },
    }
}

fn fragment_step(bytes: &[u8], lo: usize, r: PartRanges) -> (res: (usize, PartRanges))
    requires
        step_ready(bytes@, lo as int, bytes@.len() as int, r@),
    ensures
        step_fragment(bytes@, lo as int, bytes@.len() as int, r@) == (res.0 as int, res.1@),
        step_ready(bytes@, lo as int, res.0 as int, res.1@),
{
    let ghost b = bytes@;
    let n = bytes.len();
    let mut r = r;
    match rfind_byte(bytes, lo, n, 35u8) {
        None => (n, r),
        Some(f) => {
            proof {
                lemma_last_occ_range(b, lo as int, n as int, 35u8);
                lemma_ascii_boundary(b, f as int);
            }
            r.fragment = (f, n);
            (f, r)
        },
    }
}

fn query_step(bytes: &[u8], lo: usize, hi: usize, r: PartRanges) -> (res: (usize, PartRanges))
    requires
        step_ready(bytes@, lo as int, hi as int, r@),
    ensures
        step_query(bytes@, lo as int, hi as int, r@) == (res.0 as int, res.1@),
        step_ready(bytes@, lo as int, res.0 as int, res.1@),
{
    let ghost b = bytes@;
    let mut r = r;
    match rfind_byte(bytes, lo, hi, 63u8) {
        None => (hi, r),
        Some(q) => {
            proof {
                lemma_last_occ_range(b, lo as int, hi as int, 63u8);
                lemma_ascii_boundary(b, q as int);
            }
            r.raw_query = (q, hi);
            (q, r)
        },
    }
}

fn path_step(bytes: &[u8], lo: usize, hi: usize, r: PartRanges) -> (res: (usize, PartRanges))
    requires
        step_ready(bytes@, lo as int, hi as int, r@),
    ensures
        step_path(bytes@, lo as int, hi as int, r@) == (res.0 as int, res.1@),
        step_ready(bytes@, lo as int, res.0 as int, res.1@),
{
    let ghost b = bytes@;
    let mut r = r;
    let slash: [u8; 1] = [47u8];
    assert(slash@ =~= seq![47u8]);
    match find_bytes(bytes, lo, hi, &slash) {
        None => (hi, r),
        Some(s) => {
            proof {
                lemma_first_occ_range(b, lo as int, hi as int, slash@);
                assert(b.subrange(s as int, s + 1)[0] == 47u8);
                lemma_ascii_boundary(b, s as int);
            }
            r.path = (s, hi);
            (s, r)
        },
    }
}

fn host_step(bytes: &[u8], lo: usize, hi: usize, r: PartRanges) -> (res: PartRanges)
    requires
        step_ready(bytes@, lo as int, hi as int, r@),
    ensures
        step_host(bytes@, lo as int, hi as int, r@) == res@,
        all_cuts_ok(bytes@, res@),
{
    let ghost b = bytes@;
    let mut r = r;
    let colon: [u8; 1] = [58u8];
    assert(colon@ =~= seq![58u8]);
    match find_bytes(bytes, lo, hi, &colon) {
        None => {
            r.host = (lo, hi);
        },
        Some(c) => {
            proof {
                lemma_first_occ_range(b, lo as int, hi as int, colon@);
                assert(b.subrange(c as int, c + 1)[0] == 58u8);
                lemma_ascii_boundary(b, c as int);
                lemma_after_ascii_boundary(b, c as int);
            }
            r.host = (lo, c);
            r.port = (c + 1, hi);
        },
    }
    r
}

/// Whether `raw` splits without a panic; see [`parse_uri`].
fn uri_parsable(raw: &str) -> (r: bool)
    ensures
        r == (parse_uri(raw.spec_bytes()) is Some),
{
    let ghost b = raw.spec_bytes();
    let bytes = raw.as_bytes();
    let n = bytes.len();
    assert(bytes@ == b);
    if n == 0 {
        return true;
    }
    let sep: [u8; 3] = [58u8, 47u8, 47u8];
    assert(sep@ =~= seq![58u8, 47u8, 47u8]);
    let lo: usize = match find_bytes(bytes, 0, n, &sep) {
        None => 0,
        Some(idx) => {
            proof {
                lemma_first_occ_range(b, 0, n as int, sep@);
            }
            if str_get(raw, idx + 3, n).is_none() {
                return false;
            }
            let end = match idx.checked_mul(2) {
                Some(d) => d.checked_add(3),
                None => None,
            };
            match end {
                None => {
                    return false;
                },
                Some(e) => {
                    if str_get(raw, idx + 3, e).is_none() {
                        return false;
                    }
                },
            }
            idx + 3
        },
    };
    assert(step_scheme(b) matches Some((l, _)) && l == lo);
    if lo == n {
        return true;
    }
    let at: [u8; 1] = [64u8];
    assert(at@ =~= seq![64u8]);
    let colon: [u8; 1] = [58u8];
    assert(colon@ =~= seq![58u8]);
    match find_bytes(bytes, lo, n, &at) {
        None => true,
        Some(a) => {
            proof {
                lemma_first_occ_range(b, lo as int, n as int, at@);
            }
            if str_get(raw, a + 1, n).is_none() {
                return false;
            }
            let end = match (a + 1).checked_add(a - lo) {
                None => {
                    return false;
                },
                Some(e) => e,
            };
            if str_get(raw, a + 1, end).is_none() {
                return false;
            }
            match find_bytes(bytes, a + 1, end, &colon) {
                None => true,
                Some(c) => {
                    proof {
                        lemma_first_occ_range(b, a + 1, end as int, colon@);
                    }
                    str_get(raw, a + 1, c).is_some() && str_get(raw, c + 1, end).is_some()
                },
            }
        },
    }
}

/// Finds the byte ranges of the parts of `raw`.
fn part_ranges(raw: &str) -> (r: PartRanges)
    requires
        parse_uri(raw.spec_bytes()) is Some,
    ensures
        r@ == parse_uri(raw.spec_bytes()).unwrap(),
        all_cuts_ok(raw.spec_bytes(), r@),
{
    let ghost b = raw.spec_bytes();
    let bytes = raw.as_bytes();
    let n = bytes.len();
    proof {
        vstd::utf8::encode_utf8_valid_utf8(raw@);
        lemma_ascii_boundary(b, 0);
        lemma_ascii_boundary(b, n as int);
    }
    if n == 0 {
        let r = PartRanges {
            scheme: (0, 0),
            username: (0, 0),
            password: (0, 0),
            host: (0, 0),
            port: (0, 0),
            path: (0, 0),
            raw_query: (0, 0),
            fragment: (0, 0),
        };
        assert(r@ == no_parts());
        return r;
    }
    let (lo, r) = scheme_step(bytes);
    if lo == n {
        return r;
    }
    let (lo, r) = auth_step(bytes, lo, r);
    if lo == n {
        return r;
    }
    let (hi, r) = fragment_step(bytes, lo, r);
    if hi == lo {
        return r;
    }
    let (hi, r) = query_step(bytes, lo, hi, r);
    if hi == lo {
        return r;
    }
    let (hi, r) = path_step(bytes, lo, hi, r);
    if hi == lo {
        return r;
    }
    host_step(bytes, lo, hi, r)
}

/// Drops every `~` and turns every `\` into `/`.
fn strip_path_chars(v: &[char]) -> (t: Vec<char>)
    ensures
        t@ == map_char(remove_char(v@, '~'), '\\', '/'),
{
    let mut t: Vec<char> = Vec::new();
    let mut i: usize = 0;
    while i < v.len()
        invariant
            i <= v.len(),
            t@ == map_char(remove_char(v@.take(i as int), '~'), '\\', '/'),
        decreases v.len() - i,
    {
        let c = v[i];
        assert(v@.take(i + 1).drop_last() =~= v@.take(i as int));
        if c != '~' {
            t.push(if c == '\\' { '/' } else { c });
        }
        assert(t@ =~= map_char(remove_char(v@.take(i + 1), '~'), '\\', '/'));
        i += 1;
    }
    assert(v@.take(v.len() as int) =~= v@);
    t
}

/// Turns each `..`, taken from the left, into `.`.
fn collapse_dots_exec(t1: &[char]) -> (t2: Vec<char>)
    ensures
        t2@ == collapse_dots(t1@),
{
    let mut t2: Vec<char> = Vec::new();
    let mut j: usize = 0;
    assert(t1@.skip(0) =~= t1@);
    while j < t1.len()
        invariant
            j <= t1.len(),
            t2@ + collapse_dots(t1@.skip(j as int)) == collapse_dots(t1@),
        decreases t1.len() - j,
    {
        let ghost rest = t1@.skip(j as int);
        if j + 1 < t1.len() && t1[j] == '.' && t1[j + 1] == '.' {
            t2.push('.');
            assert(rest.skip(2) =~= t1@.skip(j + 2));
            assert(collapse_dots(rest) == seq!['.'] + collapse_dots(rest.skip(2)));
            j += 2;
        } else {
            t2.push(t1[j]);
            assert(rest.drop_first() =~= t1@.skip(j + 1));
            assert(collapse_dots(rest) == seq![t1@[j as int]] + collapse_dots(rest.drop_first()));
            j += 1;
        }
        assert(t2@ + collapse_dots(t1@.skip(j as int)) =~= collapse_dots(t1@));
    }
    assert(t1@.skip(j as int) =~= Seq::<char>::empty());
    assert(t2@ =~= collapse_dots(t1@));
    t2
}

/// Joins the non-blank trimmed `/`-separated segments other than `.`.
fn join_kept_segments(t: &[char]) -> (out: Vec<char>)
    ensures
        out@ == join_segments(split_on(t@, '/')),
{
    let ranges = split_ranges(t, '/');
    let ghost parts = split_on(t@, '/');
    let mut out: Vec<char> = Vec::new();
    let mut k: usize = 0;
    assert(parts.take(0) =~= Seq::<Seq<char>>::empty());
    while k < ranges.len()
        invariant
            k <= ranges.len(),
            ranges@.len() == parts.len(),
            parts == split_on(t@, '/'),
            forall|x: int|
                0 <= x < ranges@.len() ==> ranges@[x].0 <= ranges@[x].1 <= t@.len() && t@.subrange(
                    #[trigger] ranges@[x].0 as int,
                    ranges@[x].1 as int,
                ) == parts[x],
            out@ == join_segments(parts.take(k as int)),
        decreases ranges.len() - k,
    {
        let (lo, hi) = ranges[k];
        assert(t@.subrange(ranges@[k as int].0 as int, ranges@[k as int].1 as int) == parts[k as int]);
        let (a, b) = trim_bounds(t, lo, hi);
        let ghost seg = t@.subrange(a as int, b as int);
        assert(parts.take(k + 1).drop_last() =~= parts.take(k as int));
        assert(parts.take(k + 1).last() == parts[k as int]);
        if b > a && !(b - a == 1 && t[a] == '.') {
            assert(seg.len() == b - a);
            assert(seg[0] == t@[a as int]);
            assert(seg != seq!['.']) by {
                if seg == seq!['.'] {
                    assert(seq!['.'][0] == '.');
                }
            }
            let ghost before = out@;
            out.push('/');
            let mut x: usize = a;
            while x < b
                invariant
                    a <= x <= b <= t.len(),
                    out@ == before + seq!['/'] + t@.subrange(a as int, x as int),
                decreases b - x,
            {
                out.push(t[x]);
                assert(t@.subrange(a as int, x + 1) =~= t@.subrange(a as int, x as int).push(t@[x as int]));
                x += 1;
            }
        } else {
            assert(!kept_segment(seg)) by {
                if b - a == 1 && t@[a as int] == '.' {
                    assert(seg =~= seq!['.']);
                }
            }
        }
        k += 1;
    }
    assert(parts.take(parts.len() as int) =~= parts);
    out
}

/// Cleans a raw path; see [`safe_path`].
pub fn clean_path(raw: &str) -> (r: String)
    ensures
        r@ == safe_path(raw@),
{
    let v = chars_of(raw);
    let t1 = strip_path_chars(v.as_slice());
    let t2 = collapse_dots_exec(t1.as_slice());
    let mut out = join_kept_segments(t2.as_slice());
    if out.len() == 0 {
        out.push('/');
        assert(out@ =~= seq!['/']);
    }
    let ghost r1 = out@;
    if v.len() > 0 && v[v.len() - 1] == '/' && !(out[out.len() - 1] == '/') {
        out.push('/');
    }
    proof {
        lemma_ends_with_slash(v@);
        lemma_ends_with_slash(r1);
    }
    string_from_chars(out.as_slice())
}

// ---------------------------------------------------------------------------
// Percent-encoding
// ---------------------------------------------------------------------------
pub open spec fn is_alnum(c: u8) -> bool {
    (97u8 <= c && c <= 122u8) || (65u8 <= c && c <= 90u8) || (48u8 <= c && c <= 57u8)
}

/// Bytes left as they are by `Uri::encode_component_to`: letters, digits and
/// `-_.!~*'();/?:@&=+$,#`.
pub open spec fn uri_keep(c: u8) -> bool {
    is_alnum(c) || c == 45u8 || c == 95u8 || c == 46u8 || c == 33u8 || c == 126u8 || c == 42u8 || c
        == 39u8 || c == 40u8 || c == 41u8 || c == 59u8 || c == 47u8 || c == 63u8 || c == 58u8 || c
        == 64u8 || c == 38u8 || c == 61u8 || c == 43u8 || c == 36u8 || c == 44u8 || c == 35u8
}

/// Bytes left as they are by `Uri::encode_to`: letters, digits and `-_.!~*'()`.
pub open spec fn component_keep(c: u8) -> bool {
    is_alnum(c) || c == 45u8 || c == 95u8 || c == 46u8 || c == 33u8 || c == 126u8 || c == 42u8 || c
        == 39u8 || c == 40u8 || c == 41u8
}

pub open spec fn keeps(wide: bool, c: u8) -> bool {
    if wide {
        uri_keep(c)
    } else {
        component_keep(c)
    }
}

/// An upper-case hexadecimal digit.
pub open spec fn hex_digit(d: nat) -> u8 {
    if d < 10 {
        (48 + d) as u8
    } else {
        (55 + d) as u8
    }
}

/// One byte: itself when kept, otherwise `%` and its value in upper-case
/// hexadecimal without leading zero (as `format!("{:X}", c)` writes it).
pub open spec fn encode_byte(c: u8, wide: bool) -> Seq<u8> {
    if c < 128 && keeps(wide, c) {
        seq![c]
    } else if c < 16 {
        seq![37u8, hex_digit(c as nat)]
    } else {
        seq![37u8, hex_digit((c / 16) as nat), hex_digit((c % 16) as nat)]
    }
}

pub open spec fn encoded(input: Seq<u8>, wide: bool) -> Seq<u8>
    decreases input.len(),
{
    if input.len() == 0 {
        Seq::empty()
    } else {
        encoded(input.drop_last(), wide) + encode_byte(input.last(), wide)
    }
}

/// The characters of an ASCII byte string.
pub open spec fn ascii_chars(b: Seq<u8>) -> Seq<char> {
    b.map_values(|x: u8| x as char)
}

fn keeps_exec(wide: bool, c: u8) -> (r: bool)
    ensures
        r == keeps(wide, c),
{
    let alnum = (97u8 <= c && c <= 122u8) || (65u8 <= c && c <= 90u8) || (48u8 <= c && c <= 57u8);
    let common = alnum || c == 45u8 || c == 95u8 || c == 46u8 || c == 33u8 || c == 126u8 || c
        == 42u8 || c == 39u8 || c == 40u8 || c == 41u8;
    if wide {
        common || c == 59u8 || c == 47u8 || c == 63u8 || c == 58u8 || c == 64u8 || c == 38u8 || c
            == 61u8 || c == 43u8 || c == 36u8 || c == 44u8 || c == 35u8
    } else {
        common
    }
}

fn hex_exec(d: u8) -> (r: u8)
    requires
        d < 16,
    ensures
        r == hex_digit(d as nat),
{
    if d < 10 {
        48 + d
    } else {
        55 + d
    }
}

/// A URI broken into owned parts.
pub struct Uri {
    pub scheme: String,
    pub username: String,
    pub password: String,
    pub host: String,
    pub port: u32,
    pub path: String,
    pub query: Option<MultiValuesMap>,
}

impl Uri {
    pub fn new() -> (u: Self)
        ensures
            u.scheme@ == Seq::<char>::empty(),
            u.username@ == Seq::<char>::empty(),
            u.password@ == Seq::<char>::empty(),
            u.host@ == Seq::<char>::empty(),
            u.port == 0,
            u.path@ == Seq::<char>::empty(),
            u.query is None,
    {
        Self {
            scheme: String::new(),
            username: String::new(),
            password: String::new(),
            host: String::new(),
            port: 0,
            path: String::new(),
            query: None,
        }
    }

    fn _encode_to(input: &[u8], output: &mut Vec<u8>, wide: bool)
        ensures
            final(output)@ == old(output)@ + encoded(input@, wide),
    {
        let mut i: usize = 0;
        while i < input.len()
            invariant
                i <= input.len(),
                output@ == old(output)@ + encoded(input@.take(i as int), wide),
            decreases input.len() - i,
        {
            let c = input[i];
            let ghost before = output@;
            assert(input@.take(i + 1).drop_last() =~= input@.take(i as int));
            assert(input@.take(i + 1).last() == c);
            if c < 128 && keeps_exec(wide, c) {
                output.push(c);
            } else {
                output.push(37u8);
                if c >= 16 {
                    output.push(hex_exec(c / 16));
                }
                output.push(hex_exec(c % 16));
            }
            assert(output@ =~= before + encode_byte(c, wide));
            i += 1;
        }
        assert(input@.take(input.len() as int) =~= input@);
    }

    /// Percent-encodes `input` onto `output`, keeping the bytes of
    /// [`uri_keep`].
    pub fn encode_component_to(input: &[u8], output: &mut Vec<u8>)
        ensures
            final(output)@ == old(output)@ + encoded(input@, true),
    {
        Self::_encode_to(input, output, true);
    }

    /// Percent-encodes `input` onto `output`, keeping the bytes of
    /// [`component_keep`].
    pub fn encode_to(input: &[u8], output: &mut Vec<u8>)
        ensures
            final(output)@ == old(output)@ + encoded(input@, false),
    {
        Self::_encode_to(input, output, false);
    }

    fn ascii_string(bytes: &Vec<u8>) -> (s: String)
        ensures
            s@ == ascii_chars(bytes@),
    {
        let mut s = String::new();
        let mut i: usize = 0;
        while i < bytes.len()
            invariant
                i <= bytes.len(),
                s@ == ascii_chars(bytes@.take(i as int)),
            decreases bytes.len() - i,
        {
            push_char(&mut s, bytes[i] as char);
            assert(ascii_chars(bytes@.take(i + 1)) =~= ascii_chars(bytes@.take(i as int)).push(
                bytes@[i as int] as char,
            ));
            i += 1;
        }
        assert(bytes@.take(bytes.len() as int) =~= bytes@);
        s
    }

    /// `input` percent-encoded as by [`Uri::encode_to`].
    pub fn encode(input: &[u8]) -> (s: String)
        ensures
            s@ == ascii_chars(encoded(input@, false)),
    {
        let mut bytes: Vec<u8> = Vec::new();
        Self::encode_to(input, &mut bytes);
        assert(bytes@ =~= encoded(input@, false));
        Self::ascii_string(&bytes)
    }

    /// `input` percent-encoded as by [`Uri::encode_component_to`].
    pub fn encode_component(input: &[u8]) -> (s: String)
        ensures
            s@ == ascii_chars(encoded(input@, true)),
    {
        let mut bytes: Vec<u8> = Vec::new();
        Self::encode_component_to(input, &mut bytes);
        assert(bytes@ =~= encoded(input@, true));
        Self::ascii_string(&bytes)
    }
}

/// Whether a byte may appear in percent-encoded output: a kept byte, `%`, or
/// an upper-case hexadecimal digit.
pub open spec fn encoded_byte_ok(c: u8, wide: bool) -> bool {
    (c < 128 && keeps(wide, c)) || c == 37u8 || (48u8 <= c && c <= 57u8) || (65u8 <= c && c <= 70u8)
}

/// Percent-encoded output holds only kept bytes, `%` and hexadecimal digits.
pub proof fn law_encoded_bytes(input: Seq<u8>, wide: bool)
    ensures
        forall|i: int|
            0 <= i < encoded(input, wide).len() ==> encoded_byte_ok(
                #[trigger] encoded(input, wide)[i],
                wide,
            ),
    decreases input.len(),
{
    if input.len() > 0 {
        law_encoded_bytes(input.drop_last(), wide);
        let a = encoded(input.drop_last(), wide);
        let e = encode_byte(input.last(), wide);
        let c = input.last();
        assert(c / 16 < 16 && c % 16 < 16) by (bit_vector);
        assert forall|i: int| 0 <= i < (a + e).len() implies encoded_byte_ok(#[trigger] (a + e)[i], wide) by {
            if i >= a.len() {
                assert((a + e)[i] == e[i - a.len()]);
            }
        }
    }
}

/// Input made only of kept bytes is left unchanged.
pub proof fn law_encode_kept_unchanged(input: Seq<u8>, wide: bool)
    requires
        forall|i: int| 0 <= i < input.len() ==> #[trigger] input[i] < 128 && keeps(wide, input[i]),
    ensures
        encoded(input, wide) == input,
    decreases input.len(),
{
    if input.len() > 0 {
        let t = input.drop_last();
        assert forall|i: int| 0 <= i < t.len() implies #[trigger] t[i] < 128 && keeps(wide, t[i]) by {
            assert(t[i] == input[i]);
        }
        law_encode_kept_unchanged(t, wide);
        assert(input[input.len() - 1] < 128);
        assert(t.push(input.last()) =~= input);
    } else {
        assert(input =~= Seq::<u8>::empty());
    }
}

/// `Uri::encode_component` leaves ASCII letters, digits and each byte of
/// ``-_.!~*'();/?:@&=+$,#`` as they are, and escapes every other byte as `%`
/// followed by upper-case hexadecimal digits of its value.
pub proof fn law_encode_component_bytes(input: Seq<u8>, c: u8)
    ensures
        (forall|i: int| #![trigger input[i]] 0 <= i < input.len() ==> (97u8 <= input[i] <= 122u8 || 65u8 <= input[i] <= 90u8 || 48u8 <= input[i] <= 57u8 || input[i] == '-' as u8
            || input[i] == '_' as u8 || input[i] == '.' as u8 || input[i] == '!' as u8 || input[i] == '~' as u8 || input[i] == '*' as u8
            || input[i] == '\'' as u8 || input[i] == '(' as u8 || input[i] == ')' as u8 || input[i] == ';' as u8 || input[i] == '/' as u8
            || input[i] == '?' as u8 || input[i] == ':' as u8 || input[i] == '@' as u8 || input[i] == '&' as u8 || input[i] == '=' as u8
            || input[i] == '+' as u8 || input[i] == '$' as u8 || input[i] == ',' as u8 || input[i] == '#' as u8)) ==> encoded(input, true) == input,
        !(97u8 <= c <= 122u8 || 65u8 <= c <= 90u8 || 48u8 <= c <= 57u8 || c == '-' as u8
            || c == '_' as u8 || c == '.' as u8 || c == '!' as u8 || c == '~' as u8 || c == '*' as u8
            || c == '\'' as u8 || c == '(' as u8 || c == ')' as u8 || c == ';' as u8 || c == '/' as u8
            || c == '?' as u8 || c == ':' as u8 || c == '@' as u8 || c == '&' as u8 || c == '=' as u8
            || c == '+' as u8 || c == '$' as u8 || c == ',' as u8 || c == '#' as u8) ==> encoded(seq![c], true)[0] == '%' as u8 && encoded(seq![c], true).len() == if c < 16 {
            2int
        } else {
            3int
        },
{
    if forall|i: int| #![trigger input[i]] 0 <= i < input.len() ==> (97u8 <= input[i] <= 122u8 || 65u8 <= input[i] <= 90u8 || 48u8 <= input[i] <= 57u8 || input[i] == '-' as u8
            || input[i] == '_' as u8 || input[i] == '.' as u8 || input[i] == '!' as u8 || input[i] == '~' as u8 || input[i] == '*' as u8
            || input[i] == '\'' as u8 || input[i] == '(' as u8 || input[i] == ')' as u8 || input[i] == ';' as u8 || input[i] == '/' as u8
            || input[i] == '?' as u8 || input[i] == ':' as u8 || input[i] == '@' as u8 || input[i] == '&' as u8 || input[i] == '=' as u8
            || input[i] == '+' as u8 || input[i] == '$' as u8 || input[i] == ',' as u8 || input[i] == '#' as u8) {
        assert forall|i: int| 0 <= i < input.len() implies #[trigger] input[i] < 128 && keeps(true, input[i]) by {
            assert((97u8 <= input[i] <= 122u8 || 65u8 <= input[i] <= 90u8 || 48u8 <= input[i] <= 57u8 || input[i] == '-' as u8
            || input[i] == '_' as u8 || input[i] == '.' as u8 || input[i] == '!' as u8 || input[i] == '~' as u8 || input[i] == '*' as u8
            || input[i] == '\'' as u8 || input[i] == '(' as u8 || input[i] == ')' as u8 || input[i] == ';' as u8 || input[i] == '/' as u8
            || input[i] == '?' as u8 || input[i] == ':' as u8 || input[i] == '@' as u8 || input[i] == '&' as u8 || input[i] == '=' as u8
            || input[i] == '+' as u8 || input[i] == '$' as u8 || input[i] == ',' as u8 || input[i] == '#' as u8));
        }
        law_encode_kept_unchanged(input, true);
    }
    assert(seq![c].drop_last() =~= Seq::<u8>::empty());
    assert(encoded(Seq::<u8>::empty(), true) == Seq::<u8>::empty());
    assert(seq![c].last() == c);
    assert(encoded(seq![c], true) =~= encode_byte(c, true));
}

/// `Uri::encode` leaves ASCII letters, digits and each byte of ``-_.!~*'()``
/// as they are, and escapes every other byte as `%` followed by upper-case
/// hexadecimal digits of its value.
pub proof fn law_encode_bytes(input: Seq<u8>, c: u8)
    ensures
        (forall|i: int| #![trigger input[i]] 0 <= i < input.len() ==> (97u8 <= input[i] <= 122u8 || 65u8 <= input[i] <= 90u8 || 48u8 <= input[i] <= 57u8 || input[i] == '-' as u8
            || input[i] == '_' as u8 || input[i] == '.' as u8 || input[i] == '!' as u8 || input[i] == '~' as u8 || input[i] == '*' as u8
            || input[i] == '\'' as u8 || input[i] == '(' as u8 || input[i] == ')' as u8)) ==> encoded(input, false) == input,
        !(97u8 <= c <= 122u8 || 65u8 <= c <= 90u8 || 48u8 <= c <= 57u8 || c == '-' as u8
            || c == '_' as u8 || c == '.' as u8 || c == '!' as u8 || c == '~' as u8 || c == '*' as u8
            || c == '\'' as u8 || c == '(' as u8 || c == ')' as u8) ==> encoded(seq![c], false)[0] == '%' as u8 && encoded(seq![c], false).len() == if c < 16 {
            2int
        } else {
            3int
        },
{
    if forall|i: int| #![trigger input[i]] 0 <= i < input.len() ==> (97u8 <= input[i] <= 122u8 || 65u8 <= input[i] <= 90u8 || 48u8 <= input[i] <= 57u8 || input[i] == '-' as u8
            || input[i] == '_' as u8 || input[i] == '.' as u8 || input[i] == '!' as u8 || input[i] == '~' as u8 || input[i] == '*' as u8
            || input[i] == '\'' as u8 || input[i] == '(' as u8 || input[i] == ')' as u8) {
        assert forall|i: int| 0 <= i < input.len() implies #[trigger] input[i] < 128 && keeps(false, input[i]) by {
            assert((97u8 <= input[i] <= 122u8 || 65u8 <= input[i] <= 90u8 || 48u8 <= input[i] <= 57u8 || input[i] == '-' as u8
            || input[i] == '_' as u8 || input[i] == '.' as u8 || input[i] == '!' as u8 || input[i] == '~' as u8 || input[i] == '*' as u8
            || input[i] == '\'' as u8 || input[i] == '(' as u8 || input[i] == ')' as u8));
        }
        law_encode_kept_unchanged(input, false);
    }
    assert(seq![c].drop_last() =~= Seq::<u8>::empty());
    assert(encoded(Seq::<u8>::empty(), false) == Seq::<u8>::empty());
    assert(seq![c].last() == c);
    assert(encoded(seq![c], false) =~= encode_byte(c, false));
}

/// The value of an upper-case hexadecimal digit.
pub open spec fn hex_value(x: u8) -> int {
    if x <= '9' as u8 {
        x - '0' as u8
    } else {
        x - 'A' as u8 + 10
    }
}

/// An escaped byte is `%` and its value in upper-case hexadecimal: one digit
/// below 16, two from 16 on.
pub proof fn law_escape_value(c: u8, wide: bool)
    ensures
        ({
            let e = encoded(seq![c], wide);
            e[0] == '%' as u8 ==> if c < 16 {
                &&& e.len() == 2
                &&& ('0' as u8 <= e[1] <= '9' as u8 || 'A' as u8 <= e[1] <= 'F' as u8)
                &&& hex_value(e[1]) == c
            } else {
                &&& e.len() == 3
                &&& ('0' as u8 <= e[1] <= '9' as u8 || 'A' as u8 <= e[1] <= 'F' as u8)
                &&& ('0' as u8 <= e[2] <= '9' as u8 || 'A' as u8 <= e[2] <= 'F' as u8)
                &&& hex_value(e[1]) * 16 + hex_value(e[2]) == c
            }
        }),
{
    assert(seq![c].drop_last() =~= Seq::<u8>::empty());
    assert(encoded(Seq::<u8>::empty(), wide) == Seq::<u8>::empty());
    assert(seq![c].last() == c);
    assert(encoded(seq![c], wide) =~= encode_byte(c, wide));
    assert(c / 16 < 16 && c % 16 < 16) by (bit_vector);
    assert(c == (c / 16) * 16 + c % 16) by (nonlinear_arith);
}

/// The cleaned path always starts with `/` and holds no `~` and no `\`.
pub proof fn law_safe_path_shape(raw: Seq<char>)
    ensures
        safe_path(raw).len() > 0,
        safe_path(raw)[0] == '/',
        lacks(safe_path(raw), '~'),
        lacks(safe_path(raw), '\\'),
{
    let t0 = remove_char(raw, '~');
    let t1 = map_char(t0, '\\', '/');
    let t = collapse_dots(t1);
    let parts = split_on(t, '/');
    lemma_join_starts_with_slash(parts);
    lemma_remove_lacks(raw, '~');
    lemma_map_lacks(t0, '\\', '/', '~');
    lemma_map_lacks(t0, '\\', '/', '\\');
    lemma_collapse_lacks(t1, '~');
    lemma_collapse_lacks(t1, '\\');
    lemma_split_lacks(t, '/', '~');
    lemma_split_lacks(t, '/', '\\');
    lemma_join_lacks(parts, '~');
    lemma_join_lacks(parts, '\\');
    let r = join_segments(parts);
    let r1 = if r.len() == 0 {
        seq!['/']
    } else {
        r
    };
    assert(lacks(r1, '~') && lacks(r1, '\\'));
    assert(lacks(r1.push('/'), '~') && lacks(r1.push('/'), '\\')) by {
        assert forall|i: int| 0 <= i < r1.push('/').len() implies #[trigger] r1.push('/')[i] != '~'
            && r1.push('/')[i] != '\\' by {
            if i < r1.len() {
                assert(r1.push('/')[i] == r1[i]);
            }
        }
    }
}

/// A part that is there starts with its mark: the path with `/`, the query
/// with `?`, the fragment with `#`.
pub proof fn law_uri_part_marks(b: Seq<u8>)
    ensures
        parse_uri(b) matches Some(p) ==> {
            &&& p.path.0 < p.path.1 ==> b[p.path.0] == 47u8
            &&& p.raw_query.0 < p.raw_query.1 ==> b[p.raw_query.0] == 63u8
            &&& p.fragment.0 < p.fragment.1 ==> b[p.fragment.0] == 35u8
        },
{
    if b.len() > 0 {
        if let Some((lo, p1)) = step_scheme(b) {
            if lo != b.len() {
                if let Some((lo2, p2)) = step_auth(b, lo, b.len() as int, p1) {
                    if lo2 != b.len() {
                        lemma_last_occ_range(b, lo2, b.len() as int, 35u8);
                        let (h3, p3) = step_fragment(b, lo2, b.len() as int, p2);
                        lemma_last_occ_range(b, lo2, h3, 63u8);
                        let (h4, p4) = step_query(b, lo2, h3, p3);
                        lemma_first_occ_range(b, lo2, h4, seq![47u8]);
                        if let Some(sl) = first_occ(b, lo2, h4, seq![47u8]) {
                            assert(b.subrange(sl, sl + 1)[0] == 47u8);
                        }
                    }
                }
            }
        }
    }
}

/// `c` does not occur in `s`.
pub open spec fn lacks(s: Seq<char>, c: char) -> bool {
    forall|i: int| 0 <= i < s.len() ==> #[trigger] s[i] != c
}

proof fn lemma_remove_lacks(s: Seq<char>, c: char)
    ensures
        lacks(remove_char(s, c), c),
        forall|d: char| lacks(s, d) ==> lacks(remove_char(s, c), d),
    decreases s.len(),
{
    if s.len() > 0 {
        let t = s.drop_last();
        lemma_remove_lacks(t, c);
        assert forall|d: char| lacks(s, d) implies lacks(t, d) by {
            assert forall|i: int| 0 <= i < t.len() implies #[trigger] t[i] != d by {
                assert(t[i] == s[i]);
            }
        }
        if s.last() != c {
            let r = remove_char(t, c);
            assert forall|i: int| 0 <= i < r.push(s.last()).len() implies #[trigger] r.push(
                s.last(),
            )[i] != c by {
                if i < r.len() {
                    assert(r.push(s.last())[i] == r[i]);
                }
            }
            assert forall|d: char| lacks(s, d) implies lacks(r.push(s.last()), d) by {
                assert(s[s.len() - 1] != d);
                assert forall|i: int| 0 <= i < r.push(s.last()).len() implies #[trigger] r.push(
                    s.last(),
                )[i] != d by {
                    if i < r.len() {
                        assert(r.push(s.last())[i] == r[i]);
                    }
                }
            }
        }
    }
}

proof fn lemma_map_lacks(s: Seq<char>, from: char, to: char, d: char)
    requires
        d != to,
        d == from || lacks(s, d),
    ensures
        lacks(map_char(s, from, to), d),
{
    let m = map_char(s, from, to);
    assert forall|i: int| 0 <= i < m.len() implies #[trigger] m[i] != d by {
        assert(m[i] == (if s[i] == from {
            to
        } else {
            s[i]
        }));
    }
}

proof fn lemma_collapse_lacks(s: Seq<char>, d: char)
    requires
        d != '.',
        lacks(s, d),
    ensures
        lacks(collapse_dots(s), d),
    decreases s.len(),
{
    if s.len() >= 2 && s[0] == '.' && s[1] == '.' {
        let t = s.skip(2);
        assert forall|i: int| 0 <= i < t.len() implies #[trigger] t[i] != d by {
            assert(t[i] == s[i + 2]);
        }
        lemma_collapse_lacks(t, d);
        let r = seq!['.'] + collapse_dots(t);
        assert forall|i: int| 0 <= i < r.len() implies #[trigger] r[i] != d by {
            if i > 0 {
                assert(r[i] == collapse_dots(t)[i - 1]);
            }
        }
    } else if s.len() > 0 {
        let t = s.drop_first();
        assert forall|i: int| 0 <= i < t.len() implies #[trigger] t[i] != d by {
            assert(t[i] == s[i + 1]);
        }
        lemma_collapse_lacks(t, d);
        let r = seq![s[0]] + collapse_dots(t);
        assert forall|i: int| 0 <= i < r.len() implies #[trigger] r[i] != d by {
            if i > 0 {
                assert(r[i] == collapse_dots(t)[i - 1]);
            }
        }
    }
}

proof fn lemma_split_lacks(s: Seq<char>, sep: char, d: char)
    requires
        lacks(s, d),
    ensures
        forall|j: int| 0 <= j < split_on(s, sep).len() ==> lacks(#[trigger] split_on(s, sep)[j], d),
    decreases s.len(),
{
    if s.len() > 0 {
        let t = s.drop_last();
        assert forall|i: int| 0 <= i < t.len() implies #[trigger] t[i] != d by {
            assert(t[i] == s[i]);
        }
        lemma_split_lacks(t, sep, d);
        crate::text::lemma_split_nonempty(t, sep);
        let p = split_on(t, sep);
        if s.last() != sep {
            let q = p.update(p.len() - 1, p.last().push(s.last()));
            assert(s[s.len() - 1] != d);
            assert forall|j: int| 0 <= j < q.len() implies lacks(#[trigger] q[j], d) by {
                if j == p.len() - 1 {
                    let w = p.last().push(s.last());
                    assert(lacks(p[p.len() - 1], d));
                    assert forall|i: int| 0 <= i < w.len() implies #[trigger] w[i] != d by {
                        if i < p.last().len() {
                            assert(w[i] == p.last()[i]);
                        }
                    }
                } else {
                    assert(q[j] == p[j]);
                }
            }
        } else {
            let q = p.push(Seq::<char>::empty());
            assert forall|j: int| 0 <= j < q.len() implies lacks(#[trigger] q[j], d) by {
                if j < p.len() {
                    assert(q[j] == p[j]);
                }
            }
        }
    }
}

proof fn lemma_trim_lacks(s: Seq<char>, d: char)
    requires
        lacks(s, d),
    ensures
        lacks(trim_start(s), d),
        lacks(trim_end(s), d),
        lacks(trim(s), d),
    decreases s.len(),
{
    if s.len() > 0 {
        let a = s.drop_first();
        assert forall|i: int| 0 <= i < a.len() implies #[trigger] a[i] != d by {
            assert(a[i] == s[i + 1]);
        }
        let b = s.drop_last();
        assert forall|i: int| 0 <= i < b.len() implies #[trigger] b[i] != d by {
            assert(b[i] == s[i]);
        }
        lemma_trim_lacks(a, d);
        lemma_trim_lacks(b, d);
        lemma_trim_lacks_end(trim_start(s), d);
    }
}

proof fn lemma_trim_lacks_end(s: Seq<char>, d: char)
    requires
        lacks(s, d),
    ensures
        lacks(trim_end(s), d),
    decreases s.len(),
{
    if s.len() > 0 {
        let b = s.drop_last();
        assert forall|i: int| 0 <= i < b.len() implies #[trigger] b[i] != d by {
            assert(b[i] == s[i]);
        }
        lemma_trim_lacks_end(b, d);
    }
}

proof fn lemma_join_lacks(parts: Seq<Seq<char>>, d: char)
    requires
        d != '/',
        forall|j: int| 0 <= j < parts.len() ==> lacks(#[trigger] parts[j], d),
    ensures
        lacks(join_segments(parts), d),
    decreases parts.len(),
{
    if parts.len() > 0 {
        let q = parts.drop_last();
        assert forall|j: int| 0 <= j < q.len() implies lacks(#[trigger] q[j], d) by {
            assert(q[j] == parts[j]);
        }
        lemma_join_lacks(q, d);
        let last = parts.last();
        assert(lacks(parts[parts.len() - 1], d));
        lemma_trim_lacks(last, d);
        let a = join_segments(q);
        let r = a + seq!['/'] + trim(last);
        assert forall|i: int| 0 <= i < r.len() implies #[trigger] r[i] != d by {
            if i < a.len() {
                assert(r[i] == a[i]);
            } else if i == a.len() {
                assert(r[i] == '/');
            } else {
                assert(r[i] == trim(last)[i - a.len() - 1]);
            }
        }
    }
}

proof fn lemma_join_starts_with_slash(parts: Seq<Seq<char>>)
    ensures
        join_segments(parts).len() > 0 ==> join_segments(parts)[0] == '/',
    decreases parts.len(),
{
    if parts.len() > 0 {
        lemma_join_starts_with_slash(parts.drop_last());
    }
}

} // verus!
