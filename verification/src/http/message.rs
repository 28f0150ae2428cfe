//! An HTTP/1.1 message with a lower-cased header map and an optional body,
//! read off the wire one read at a time and written back as bytes.
use vstd::prelude::*;
use vstd::string::StringExecFns;
use vstd::utf8::{decode_utf8, encode_utf8, valid_utf8};

use crate::http::body::{Body, CompressionType};
use crate::http::header::{
    content_encoding_of, content_length_of, header_chunked, header_lines, key_of,
    view_result_enc, Header,
};
use crate::reqr::{find_char, first_char, lemma_first_char};
use crate::utils::time::{utc_now_str, utc_time_text, DEFAULT_HTTP_HEADER_TIME_LAYOUT};
use crate::text::{
    ascii_upper, bytes_text, chars_of, decimal, parse_usize, parse_usize_spec, str_to_string,
    string_from_range, text_of, to_ascii_uppercase, trim_end, trim_end_string, trim_start,
    trim_start_string, usize_to_string,
};

verus! {

/// A message: the three words of the first line, the header and the body.
pub struct Message {
    pub fl: (String, String, String),
    pub header: Header,
    pub body: Option<Body>,
}

/// Where the reading of a message stands.
#[derive(Debug, Clone, Copy, PartialEq, Eq, Structural)]
pub enum Read11State {
    /// The method comes next.
    Method,
    /// The target comes next.
    Target,
    /// The version comes next.
    Version,
    /// A header line, or the empty line ending the head, comes next.
    HeaderLine,
    /// This many body bytes are still to come.
    Body(usize),
    /// A chunk-size line comes next.
    ChunkSize,
    /// Of a chunk of the first size, this many bytes are still to come.
    ChunkData(usize, usize),
    /// The line end after a chunk of the given size comes next.
    ChunkEnd(usize),
    /// The line end after the last, empty chunk comes next.
    LastChunkEnd,
}

/// What to read next.
#[derive(Debug, Clone, Copy, PartialEq, Eq, Structural)]
pub enum Read11Plan {
    /// Up to and including `delim`, at most `limit` bytes.
    Until { delim: u8, limit: u64 },
    /// Exactly this many bytes.
    Exact(usize),
}

/// The outcome of one read: the next state, or the end with its code (0 for
/// a complete message, 1 for a connection that closed, 400 for a bad one).
#[derive(Debug, Clone, Copy, PartialEq, Eq, Structural)]
pub enum Read11Progress {
    Next(Read11State),
    Finished(u32),
}

/// What to read in each state, through a buffer of `cap` bytes.
pub open spec fn read11_plan(st: Read11State, cap: usize) -> Read11Plan {
    match st {
        Read11State::Method => Read11Plan::Until { delim: 32u8, limit: 30 },
        Read11State::Target => Read11Plan::Until { delim: 32u8, limit: 65536 },
        Read11State::Version => Read11Plan::Until { delim: 10u8, limit: 30 },
        Read11State::HeaderLine => Read11Plan::Until { delim: 10u8, limit: 65536 },
        Read11State::Body(size) => Read11Plan::Exact(if size > cap { cap } else { size }),
        Read11State::ChunkSize => Read11Plan::Until { delim: 10u8, limit: 36 },
        Read11State::ChunkData(_, remain) => Read11Plan::Exact(if remain > cap { cap } else { remain }),
        Read11State::ChunkEnd(_) => Read11Plan::Until { delim: 10u8, limit: 2 },
        Read11State::LastChunkEnd => Read11Plan::Until { delim: 10u8, limit: 2 },
    }
}

impl Read11State {
    /// What to read next in this state, through a buffer of `cap` bytes.
    pub fn plan(&self, cap: usize) -> (p: Read11Plan)
        ensures
            p == read11_plan(*self, cap),
    {
        match *self {
            Read11State::Method => Read11Plan::Until { delim: 32u8, limit: 30 },
            Read11State::Target => Read11Plan::Until { delim: 32u8, limit: 65536 },
            Read11State::Version => Read11Plan::Until { delim: 10u8, limit: 30 },
            Read11State::HeaderLine => Read11Plan::Until { delim: 10u8, limit: 65536 },
            Read11State::Body(size) => Read11Plan::Exact(
                if size > cap {
                    cap
                } else {
                    size
                },
            ),
            Read11State::ChunkSize => Read11Plan::Until { delim: 10u8, limit: 36 },
            Read11State::ChunkData(_, remain) => Read11Plan::Exact(
                if remain > cap {
                    cap
                } else {
                    remain
                },
            ),
            Read11State::ChunkEnd(_) => Read11Plan::Until { delim: 10u8, limit: 2 },
            Read11State::LastChunkEnd => Read11Plan::Until { delim: 10u8, limit: 2 },
        }
    }
}

/// The bytes of a read, if it succeeded.
pub open spec fn read_bytes(data: Option<&[u8]>) -> Option<Seq<u8>> {
    match data {
        Some(d) => Some(d@),
        None => None,
    }
}

/// The UTF-8 text of all but the last `drop` bytes, if it is UTF-8.
pub open spec fn utf8_prefix(d: Seq<u8>, drop: int) -> Option<Seq<char>> {
    if valid_utf8(d.take(d.len() - drop)) {
        Some(decode_utf8(d.take(d.len() - drop)))
    } else {
        None
    }
}

/// The `content-encoding` result the header gives: the kept one, else the
/// one its values state.
pub open spec fn encoding_result(h: Header) -> Result<Option<CompressionType>, Seq<char>> {
    match h.encoding_cache() {
        Some(c) => c,
        None => content_encoding_of(h@),
    }
}

/// The `content-length` result the header gives: the kept one, else the one
/// its values state.
pub open spec fn length_result(h: Header) -> Result<usize, Seq<char>> {
    match h.length_cache() {
        Some(c) => c,
        None => content_length_of(h@),
    }
}

/// The header value naming a coding.
pub open spec fn coding_name(ct: CompressionType) -> Seq<char> {
    match ct {
        CompressionType::Gzip => "gzip"@,
        CompressionType::Deflate => "deflate"@,
        CompressionType::Br => "br"@,
    }
}

/// A new, empty body to read into.
pub open spec fn fresh_incoming(b: Body) -> bool {
    &&& b.wf()
    &&& b.contents() == Seq::<u8>::empty()
    &&& b.cursor() == 0
    &&& !b.outgoing()
    &&& !b.encoding()
    &&& b.decoded() is None
}

/// `new` is `old` after `ensure_body`, which answered `r`: a message without
/// a body gets an empty incoming body with the coding its header names; the
/// answer is whether that coding is known.
pub open spec fn body_ensured(old: Message, new: Message, r: bool) -> bool {
    if old.body is Some {
        r && new == old
    } else {
        &&& new.fl == old.fl
        &&& new.header.wf()
        &&& new.header@ == old.header@
        &&& new.header.length_cache() == old.header.length_cache()
        &&& new.header.encoding_cache() == Some(encoding_result(old.header))
        &&& new.body matches Some(b) && fresh_incoming(b) && b.coding() == match encoding_result(
            old.header,
        ) {
            Ok(Some(ct)) => Some(ct),
            _ => None,
        }
        &&& r == encoding_result(old.header) is Ok
    }
}

/// The name and value of a header line: the text before the first `:` (the
/// whole line without one) and the text after it without leading
/// whitespace (empty without one).
pub open spec fn split_field(line: Seq<char>) -> (Seq<char>, Seq<char>) {
    match first_char(line, ':', 0) {
        Some(c) => (line.take(c), trim_start(line.skip(c + 1))),
        None => (line, Seq::empty()),
    }
}

/// The first line as written: the first word or `HTTP/1.1`, then the other
/// two, or `200 OK` when either is empty.
pub open spec fn first_line_text(fl0: Seq<char>, fl1: Seq<char>, fl2: Seq<char>) -> Seq<char> {
    (if fl0.len() == 0 {
        "HTTP/1.1"@
    } else {
        fl0
    }) + " "@ + (if fl1.len() == 0 || fl2.len() == 0 {
        "200 OK"@
    } else {
        fl1 + " "@ + fl2
    }) + "\r\n"@
}

/// The body's length as sent: 0 without a body.
pub open spec fn body_len(body: Option<Body>) -> nat {
    match body {
        Some(b) => b.contents().len(),
        None => 0,
    }
}

impl Message {
    pub open spec fn wf(&self) -> bool {
        &&& self.header.wf()
        &&& self.body matches Some(b) ==> b.wf()
    }

    pub fn new() -> (m: Self)
        ensures
            m.wf(),
            m.fl.0@ == Seq::<char>::empty(),
            m.fl.1@ == Seq::<char>::empty(),
            m.fl.2@ == Seq::<char>::empty(),
            m.header@ == Map::<Seq<char>, Seq<Seq<char>>>::empty(),
            m.header.length_cache() is None,
            m.header.encoding_cache() is None,
            m.body is None,
    {
        Message {
            fl: (String::new(), String::new(), String::new()),
            header: Header::new(),
            body: None,
        }
    }

    /// The coding `content-encoding` names; see [`encoding_result`].
    pub fn get_content_encoding(&mut self) -> (r: Result<Option<CompressionType>, String>)
        requires
            old(self).wf(),
        ensures
            final(self).wf(),
            final(self).fl == old(self).fl,
            final(self).body == old(self).body,
            final(self).header@ == old(self).header@,
            final(self).header.length_cache() == old(self).header.length_cache(),
            view_result_enc(r) == encoding_result(old(self).header),
            final(self).header.encoding_cache() == Some(view_result_enc(r)),
    {
        self.header.get_content_encoding()
    }

    /// Names the coding in `content-encoding` and gives the message an empty
    /// body to write out (`for_outgoing`) or to read into. The message must
    /// not have a body yet.
    pub fn set_content_encoding(&mut self, ct: CompressionType, for_outgoing: bool)
        requires
            old(self).wf(),
            old(self).body is None,
        ensures
            final(self).wf(),
            final(self).fl == old(self).fl,
            final(self).header@ == old(self).header@.insert(
                key_of("content-encoding"@),
                seq![coding_name(ct)],
            ),
            final(self).header.length_cache() == old(self).header.length_cache(),
            final(self).header.encoding_cache() == old(self).header.encoding_cache(),
            final(self).body matches Some(b) && b.wf() && b.contents() == Seq::<u8>::empty()
                && b.cursor() == 0 && b.coding() is None && b.outgoing() == for_outgoing
                && !b.encoding() && b.decoded() is None,
    {
        match ct {
            CompressionType::Gzip => {
                self.header.set("content-encoding", "gzip");
            },
            CompressionType::Deflate => {
                self.header.set("content-encoding", "deflate");
            },
            CompressionType::Br => {
                self.header.set("content-encoding", "br");
            },
        }
        if for_outgoing {
            self.body = Some(Body::new_for_outgoing(4096));
        } else {
            self.body = Some(Body::new_for_incoming(4096));
        }
    }

    /// Gives the message an incoming body of `size` (default 4096) bytes'
    /// room if it has none, with the coding its header names; see
    /// [`body_ensured`].
    pub fn ensure_body(&mut self, size: Option<usize>) -> (r: bool)
        requires
            old(self).wf(),
        ensures
            final(self).wf(),
            body_ensured(*old(self), *final(self), r),
    {
        if self.body.is_some() {
            return true;
        }
        let cap = match size {
            Some(n) => n,
            None => 4096,
        };
        let mut b = Body::new_for_incoming(cap);
        let enc = self.get_content_encoding();
        let ok = match enc {
            Ok(Some(ct)) => {
                b.set_compression_type(ct);
                true
            },
            Ok(None) => true,
            Err(_) => false,
        };
        self.body = Some(b);
        ok
    }

    /// One read of the message: what the read of [`Read11State::plan`]
    /// returned (`None` when it failed) moves the reading on. See the step
    /// of each state for what it does.
    pub fn readfrom11_step(&mut self, st: Read11State, data: Option<&[u8]>) -> (r: Read11Progress)
        requires
            old(self).wf(),
            st == Read11State::ChunkSize ==> (data matches Some(d) ==> d@.len() >= 2),
            st matches Read11State::Body(size) ==> (data matches Some(d) ==> d@.len() <= size),
            st matches Read11State::ChunkData(_, remain) ==> (data matches Some(d) ==> d@.len()
                <= remain),
            data matches Some(d) ==> body_len(old(self).body) + d@.len() <= isize::MAX,
        ensures
            final(self).wf(),
            st == Read11State::Method ==> method_step(read_bytes(data), r, final(self).fl.0@)
                && final(self).fl.1 == old(self).fl.1 && final(self).fl.2 == old(self).fl.2
                && final(self).header == old(self).header && final(self).body == old(self).body,
            st == Read11State::Target ==> target_step(read_bytes(data), r, final(self).fl.1@)
                && final(self).fl.0 == old(self).fl.0 && final(self).fl.2 == old(self).fl.2
                && final(self).header == old(self).header && final(self).body == old(self).body,
            st == Read11State::Version ==> version_step(read_bytes(data), r, final(self).fl.2@)
                && final(self).fl.0 == old(self).fl.0 && final(self).fl.1 == old(self).fl.1
                && final(self).header == old(self).header && final(self).body == old(self).body,
            st == Read11State::HeaderLine ==> header_line_step(
                *old(self),
                read_bytes(data),
                r,
                *final(self),
            ),
            st matches Read11State::Body(size) ==> body_step(
                *old(self),
                size,
                read_bytes(data),
                r,
                *final(self),
            ),
            st == Read11State::ChunkSize ==> chunk_size_step(read_bytes(data), r) && *final(self)
                == *old(self),
            st matches Read11State::ChunkData(size, remain) ==> chunk_data_step(
                *old(self),
                size,
                remain,
                read_bytes(data),
                r,
                *final(self),
            ),
            st matches Read11State::ChunkEnd(size) ==> *final(self) == *old(self) && r == (
            if read_bytes(data) matches Some(d) && d.len() == 2 {
                Read11Progress::Next(Read11State::ChunkData(size, size))
            } else {
                Read11Progress::Finished(400)
            }),
            st == Read11State::LastChunkEnd ==> *final(self) == *old(self) && r == (
            if read_bytes(data) matches Some(d) && d.len() == 2 {
                Read11Progress::Finished(0)
            } else {
                Read11Progress::Finished(400)
            }),
    {
        match st {
            Read11State::Method => {
                let (r, w) = Self::read_method(data);
                self.fl.0 = w;
                r
            },
            Read11State::Target => {
                let (r, w) = Self::read_target(data);
                self.fl.1 = w;
                r
            },
            Read11State::Version => {
                let (r, w) = Self::read_version(data);
                self.fl.2 = w;
                r
            },
            Read11State::HeaderLine => self.read_header_line(data),
            Read11State::Body(size) => self.read_body(size, data),
            Read11State::ChunkSize => Self::read_chunk_size(data),
            Read11State::ChunkData(size, remain) => self.read_chunk_data(size, remain, data),
            Read11State::ChunkEnd(size) => match data {
                Some(d) => if d.len() == 2 {
                    Read11Progress::Next(Read11State::ChunkData(size, size))
                } else {
                    Read11Progress::Finished(400)
                },
                None => Read11Progress::Finished(400),
            },
            Read11State::LastChunkEnd => match data {
                Some(d) => if d.len() == 2 {
                    Read11Progress::Finished(0)
                } else {
                    Read11Progress::Finished(400)
                },
                None => Read11Progress::Finished(400),
            },
        }
    }

    fn utf8_prefix_exec(d: &[u8], drop: usize) -> (r: Option<String>)
        requires
            drop <= d.len(),
        ensures
            match r {
                Some(s) => utf8_prefix(d@, drop as int) == Some(s@),
                None => utf8_prefix(d@, drop as int) is None,
            },
    {
        let n = d.len() - drop;
        let mut v: Vec<u8> = Vec::new();
        let mut i: usize = 0;
        while i < n
            invariant
                i <= n <= d.len(),
                v@ == d@.take(i as int),
            decreases n - i,
        {
            v.push(d[i]);
            assert(d@.take(i + 1) =~= d@.take(i as int).push(d@[i as int]));
            i += 1;
        }
        match crate::text::utf8_str(v.as_slice()) {
            Some(s) => {
                proof {
                    vstd::utf8::encode_utf8_decode_utf8(s@);
                }
                Some(s.to_owned())
            },
            None => None,
        }
    }

    fn read_method(data: Option<&[u8]>) -> (res: (Read11Progress, String))
        ensures
            method_step(read_bytes(data), res.0, res.1@),
    {
        match data {
            None => (Read11Progress::Finished(400), String::new()),
            Some(d) => {
                if d.len() < 2 {
                    return (Read11Progress::Finished(1), String::new());
                }
                match Self::utf8_prefix_exec(d, 1) {
                    Some(m) => (Read11Progress::Next(Read11State::Target), to_ascii_uppercase(m.as_str())),
                    None => (Read11Progress::Finished(400), String::new()),
                }
            },
        }
    }

    fn read_target(data: Option<&[u8]>) -> (res: (Read11Progress, String))
        ensures
            target_step(read_bytes(data), res.0, res.1@),
    {
        match data {
            None => (Read11Progress::Finished(400), String::new()),
            Some(d) => {
                if d.len() < 1 {
                    return (Read11Progress::Finished(1), String::new());
                }
                if d.len() == 1 {
                    return (Read11Progress::Next(Read11State::Version), str_to_string("/"));
                }
                let mut v: Vec<u8> = Vec::new();
                let n = d.len() - 1;
                let mut i: usize = 0;
                while i < n
                    invariant
                        i <= n <= d.len(),
                        v@ == d@.take(i as int),
                    decreases n - i,
                {
                    v.push(d[i]);
                    assert(d@.take(i + 1) =~= d@.take(i as int).push(d@[i as int]));
                    i += 1;
                }
                (Read11Progress::Next(Read11State::Version), bytes_text(v.as_slice()))
            },
        }
    }

    fn read_version(data: Option<&[u8]>) -> (res: (Read11Progress, String))
        ensures
            version_step(read_bytes(data), res.0, res.1@),
    {
        match data {
            None => (Read11Progress::Finished(400), String::new()),
            Some(d) => {
                if d.len() < 2 {
                    return (Read11Progress::Finished(1), String::new());
                }
                match Self::utf8_prefix_exec(d, 1) {
                    Some(v) => (Read11Progress::Next(Read11State::HeaderLine), trim_end_string(v.as_str())),
                    None => (Read11Progress::Finished(400), String::new()),
                }
            },
        }
    }

    fn read_header_line(&mut self, data: Option<&[u8]>) -> (r: Read11Progress)
        requires
            old(self).wf(),
        ensures
            final(self).wf(),
            header_line_step(*old(self), read_bytes(data), r, *final(self)),
    {
        let d = match data {
            None => {
                return Read11Progress::Finished(400);
            },
            Some(d) => d,
        };
        if d.len() < 1 {
            return Read11Progress::Finished(1);
        }
        let text = match Self::utf8_prefix_exec(d, 1) {
            None => {
                return Read11Progress::Finished(400);
            },
            Some(t) => t,
        };
        let line = trim_end_string(text.as_str());
        if line.as_str().is_empty() {
            return self.head_done();
        }
        let lc = chars_of(line.as_str());
        proof {
            lemma_first_char(lc@, ':', 0);
        }
        let (key, value) = match find_char(lc.as_slice(), ':') {
            Some(c) => {
                let k = string_from_range(lc.as_slice(), 0, c);
                let rest = string_from_range(lc.as_slice(), c + 1, lc.len());
                assert(lc@.subrange(0, c as int) =~= lc@.take(c as int));
                assert(lc@.subrange(c + 1, lc@.len() as int) =~= lc@.skip(c + 1));
                (k, trim_start_string(rest.as_str()))
            },
            None => (string_from_range(lc.as_slice(), 0, lc.len()), String::new()),
        };
        assert(lc@.subrange(0, lc@.len() as int) =~= lc@);
        if key.as_str().is_empty() {
            return Read11Progress::Finished(400);
        }
        self.header.add(key.as_str(), value.as_str());
        Read11Progress::Next(Read11State::HeaderLine)
    }

    /// After the empty line: a chunked body needs a body to read into; else
    /// the announced length decides.
    fn head_done(&mut self) -> (r: Read11Progress)
        requires
            old(self).wf(),
        ensures
            final(self).wf(),
            head_done_step(*old(self), r, *final(self)),
    {
        if self.header.is_chunked() {
            if !self.ensure_body(None) {
                return Read11Progress::Finished(400);
            }
            return Read11Progress::Next(Read11State::ChunkSize);
        }
        match self.header.get_content_length() {
            Ok(size) => {
                if size == 0 {
                    Read11Progress::Finished(0)
                } else {
                    Read11Progress::Next(Read11State::Body(size))
                }
            },
            Err(_) => Read11Progress::Finished(400),
        }
    }

    fn read_body(&mut self, size: usize, data: Option<&[u8]>) -> (r: Read11Progress)
        requires
            old(self).wf(),
            data matches Some(d) ==> d@.len() <= size,
            data matches Some(d) ==> body_len(old(self).body) + d@.len() <= isize::MAX,
        ensures
            final(self).wf(),
            body_step(*old(self), size, read_bytes(data), r, *final(self)),
    {
        let d = match data {
            None => {
                return Read11Progress::Next(Read11State::Body(size));
            },
            Some(d) => d,
        };
        if d.len() < 1 {
            return Read11Progress::Finished(1);
        }
        if !self.ensure_body(Some(size)) {
            return Read11Progress::Finished(400);
        }
        self.write_body(d);
        let left = size - d.len();
        if left == 0 {
            Read11Progress::Finished(0)
        } else {
            Read11Progress::Next(Read11State::Body(left))
        }
    }

    fn write_body(&mut self, d: &[u8])
        requires
            old(self).wf(),
            old(self).body is Some,
            body_len(old(self).body) + d@.len() <= isize::MAX,
        ensures
            final(self).wf(),
            final(self).fl == old(self).fl,
            final(self).header == old(self).header,
            body_written(old(self).body.unwrap(), d@, final(self).body),
    {
        let mut b = match self.body.take() {
            Some(b) => b,
            None => Body::new_for_incoming(0),
        };
        b.write(d);
        self.body = Some(b);
    }

    fn read_chunk_size(data: Option<&[u8]>) -> (r: Read11Progress)
        requires
            data matches Some(d) ==> d@.len() >= 2,
        ensures
            chunk_size_step(read_bytes(data), r),
    {
        match data {
            None => Read11Progress::Finished(400),
            Some(d) => match Self::utf8_prefix_exec(d, 2) {
                None => Read11Progress::Finished(400),
                Some(line) => match parse_usize(line.as_str()) {
                    Ok(v) => if v == 0 {
                        Read11Progress::Next(Read11State::LastChunkEnd)
                    } else {
                        Read11Progress::Next(Read11State::ChunkData(v, v))
                    },
                    Err(_) => Read11Progress::Finished(400),
                },
            },
        }
    }

    fn read_chunk_data(&mut self, size: usize, remain: usize, data: Option<&[u8]>) -> (r:
        Read11Progress)
        requires
            old(self).wf(),
            data matches Some(d) ==> d@.len() <= remain,
            data matches Some(d) ==> body_len(old(self).body) + d@.len() <= isize::MAX,
        ensures
            final(self).wf(),
            chunk_data_step(*old(self), size, remain, read_bytes(data), r, *final(self)),
    {
        let d = match data {
            None => {
                return Read11Progress::Finished(400);
            },
            Some(d) => d,
        };
        if d.len() < 1 {
            return Read11Progress::Finished(1);
        }
        if self.body.is_none() {
            return Read11Progress::Finished(400);
        }
        self.write_body(d);
        let left = remain - d.len();
        if left == 0 {
            Read11Progress::Next(Read11State::ChunkEnd(size))
        } else {
            Read11Progress::Next(Read11State::ChunkData(size, left))
        }
    }

    /// Gets the message ready to be written, dated now in GMT, and returns
    /// its head; see [`prepared`].
    pub fn writeto11_head(&mut self) -> (head: Vec<u8>)
        requires
            old(self).wf(),
            old(self).body matches Some(b) ==> (b.encoding() ==> b.contents().len()
                + crate::http::body::encoded_with(b.coding().unwrap(), b.pending()).len()
                <= isize::MAX),
        ensures
            exists|secs: i64, nanos: u32|
                prepared(
                    *old(self),
                    *final(self),
                    #[trigger] utc_time_text(secs, nanos, DEFAULT_HTTP_HEADER_TIME_LAYOUT@),
                    head@,
                ),
    {
        let date = utc_now_str(DEFAULT_HTTP_HEADER_TIME_LAYOUT);
        let ghost (secs, nanos) = choose|secs: i64, nanos: u32|
            date@ == #[trigger] utc_time_text(secs, nanos, DEFAULT_HTTP_HEADER_TIME_LAYOUT@);
        let head = self.head_with_date(date.as_str());
        assert(prepared(*old(self), *self, utc_time_text(secs, nanos, DEFAULT_HTTP_HEADER_TIME_LAYOUT@), head@));
        head
    }

    /// Gets the message ready to be written with the date `date` and
    /// returns its head; see [`prepared`].
    pub fn head_with_date(&mut self, date: &str) -> (head: Vec<u8>)
        requires
            old(self).wf(),
            old(self).body matches Some(b) ==> (b.encoding() ==> b.contents().len()
                + crate::http::body::encoded_with(b.coding().unwrap(), b.pending()).len()
                <= isize::MAX),
        ensures
            prepared(*old(self), *final(self), date@, head@),
    {
        let mut text = String::new();
        if self.fl.0.as_str().is_empty() {
            text.append("HTTP/1.1");
        } else {
            text.append(self.fl.0.as_str());
        }
        text.append(" ");
        if self.fl.1.as_str().is_empty() || self.fl.2.as_str().is_empty() {
            text.append("200 OK");
            text.append("\r\n");
        } else {
            text.append(self.fl.1.as_str());
            text.append(" ");
            text.append(self.fl.2.as_str());
            text.append("\r\n");
        }
        assert(text@ =~= first_line_text(self.fl.0@, self.fl.1@, self.fl.2@));
        let ghost first = text@;
        let mut body_length: usize = 0;
        match self.body.take() {
            Some(mut b) => {
                b.flush();
                body_length = b.len();
                self.body = Some(b);
            },
            None => {},
        }
        let len_text = usize_to_string(body_length);
        self.header.set("content-length", len_text.as_str());
        self.header.set("server", "httpd.rs");
        self.header.set("date", date);
        let lines = self.header.lines_text();
        text.append(lines.as_str());
        text.append("\r\n");
        assert(text@ =~= first + header_lines(self.header.pairs()) + "\r\n"@);
        let bytes = text.as_str().as_bytes();
        let mut out: Vec<u8> = Vec::new();
        let mut i: usize = 0;
        while i < bytes.len()
            invariant
                i <= bytes.len(),
                out@ == bytes@.take(i as int),
            decreases bytes.len() - i,
        {
            out.push(bytes[i]);
            assert(bytes@.take(i + 1) =~= bytes@.take(i as int).push(bytes@[i as int]));
            i += 1;
        }
        assert(bytes@.take(bytes.len() as int) =~= bytes@);
        out
    }
}

/// `new` is `old` made ready to be written with the date `date`, and `head`
/// is its head: the body is flushed; `content-length` is set to the body's
/// length, `server` to `httpd.rs` and `date` to `date`; the head is the
/// first line, the header lines and an empty line, as UTF-8.
pub open spec fn prepared(old: Message, new: Message, date: Seq<char>, head: Seq<u8>) -> bool {
    &&& new.wf()
    &&& new.fl == old.fl
    &&& body_flushed(old.body, new.body)
    &&& new.header@ == old.header@.insert(
        key_of("content-length"@),
        seq![decimal(body_len(new.body))],
    ).insert(key_of("server"@), seq!["httpd.rs"@]).insert(key_of("date"@), seq![date])
    &&& new.header.length_cache() == old.header.length_cache()
    &&& new.header.encoding_cache() == old.header.encoding_cache()
    &&& head == encode_utf8(
        first_line_text(old.fl.0@, old.fl.1@, old.fl.2@) + header_lines(new.header.pairs())
            + "\r\n"@,
    )
}

/// `new` is `b` with `d` written.
pub open spec fn body_written(b: Body, d: Seq<u8>, new: Option<Body>) -> bool {
    new matches Some(nb) && {
        &&& nb.wf()
        &&& nb.coding() == b.coding()
        &&& nb.outgoing() == b.outgoing()
        &&& nb.cursor() == b.cursor()
        &&& nb.decoded() == b.decoded()
        &&& if b.outgoing() && b.coding() is Some {
            nb.encoding() && nb.pending() == b.pending() + d && nb.contents() == b.contents()
        } else {
            nb.encoding() == b.encoding() && nb.pending() == b.pending() && nb.contents()
                == b.contents() + d
        }
    }
}

/// `new` is `old` flushed.
pub open spec fn body_flushed(old: Option<Body>, new: Option<Body>) -> bool {
    match old {
        None => new is None,
        Some(b) => new matches Some(nb) && {
            &&& nb.wf()
            &&& !nb.encoding()
            &&& nb.coding() == b.coding()
            &&& nb.outgoing() == b.outgoing()
            &&& nb.cursor() == b.cursor()
            &&& nb.decoded() == b.decoded()
            &&& nb.contents() == if b.encoding() {
                b.contents() + crate::http::body::encoded_with(b.coding().unwrap(), b.pending())
            } else {
                b.contents()
            }
        },
    }
}

/// The method step: the word before the space, upper-cased; a read of
/// fewer than 2 bytes means the connection closed.
pub open spec fn method_step(data: Option<Seq<u8>>, r: Read11Progress, fl0: Seq<char>) -> bool {
    match data {
        None => r == Read11Progress::Finished(400) && fl0 == Seq::<char>::empty(),
        Some(d) => if d.len() < 2 {
            r == Read11Progress::Finished(1) && fl0 == Seq::<char>::empty()
        } else {
            match utf8_prefix(d, 1) {
                Some(m) => r == Read11Progress::Next(Read11State::Target) && fl0 == ascii_upper(m),
                None => r == Read11Progress::Finished(400) && fl0 == Seq::<char>::empty(),
            }
        },
    }
}

/// The target step: the word before the space, or `/` when only the space
/// was read.
pub open spec fn target_step(data: Option<Seq<u8>>, r: Read11Progress, fl1: Seq<char>) -> bool {
    match data {
        None => r == Read11Progress::Finished(400) && fl1 == Seq::<char>::empty(),
        Some(d) => if d.len() < 1 {
            r == Read11Progress::Finished(1) && fl1 == Seq::<char>::empty()
        } else if d.len() == 1 {
            r == Read11Progress::Next(Read11State::Version) && fl1 == "/"@
        } else {
            r == Read11Progress::Next(Read11State::Version) && fl1 == text_of(d.take(d.len() - 1))
        },
    }
}

/// The version step: the line without its last byte and trailing
/// whitespace.
pub open spec fn version_step(data: Option<Seq<u8>>, r: Read11Progress, fl2: Seq<char>) -> bool {
    match data {
        None => r == Read11Progress::Finished(400) && fl2 == Seq::<char>::empty(),
        Some(d) => if d.len() < 2 {
            r == Read11Progress::Finished(1) && fl2 == Seq::<char>::empty()
        } else {
            match utf8_prefix(d, 1) {
                Some(v) => r == Read11Progress::Next(Read11State::HeaderLine) && fl2 == trim_end(v),
                None => r == Read11Progress::Finished(400) && fl2 == Seq::<char>::empty(),
            }
        },
    }
}

/// The step after the empty line ending the head.
pub open spec fn head_done_step(old: Message, r: Read11Progress, new: Message) -> bool {
    if header_chunked(old.header@) {
        exists|ok: bool|
            body_ensured(old, new, ok) && r == if ok {
                Read11Progress::Next(Read11State::ChunkSize)
            } else {
                Read11Progress::Finished(400)
            }
    } else {
        &&& new.fl == old.fl
        &&& new.body == old.body
        &&& new.header.wf()
        &&& new.header@ == old.header@
        &&& new.header.encoding_cache() == old.header.encoding_cache()
        &&& new.header.length_cache() == Some(length_result(old.header))
        &&& r == match length_result(old.header) {
            Ok(n) => if n == 0 {
                Read11Progress::Finished(0)
            } else {
                Read11Progress::Next(Read11State::Body(n))
            },
            Err(_) => Read11Progress::Finished(400),
        }
    }
}

/// The header-line step: a field is added under its lower-cased name; the
/// empty line ends the head; a field without a name is an error.
pub open spec fn header_line_step(old: Message, data: Option<Seq<u8>>, r: Read11Progress, new: Message) -> bool {
    match data {
        None => r == Read11Progress::Finished(400) && new == old,
        Some(d) => if d.len() < 1 {
            r == Read11Progress::Finished(1) && new == old
        } else {
            match utf8_prefix(d, 1) {
                None => r == Read11Progress::Finished(400) && new == old,
                Some(t) => {
                    let line = trim_end(t);
                    if line.len() == 0 {
                        head_done_step(old, r, new)
                    } else {
                        let (k, v) = split_field(line);
                        if k.len() == 0 {
                            r == Read11Progress::Finished(400) && new == old
                        } else {
                            &&& r == Read11Progress::Next(Read11State::HeaderLine)
                            &&& new.fl == old.fl
                            &&& new.body == old.body
                            &&& new.header@ == old.header@.insert(
                                key_of(k),
                                if old.header@.dom().contains(key_of(k)) {
                                    old.header@[key_of(k)].push(v)
                                } else {
                                    seq![v]
                                },
                            )
                            &&& new.header.length_cache() == old.header.length_cache()
                            &&& new.header.encoding_cache() == old.header.encoding_cache()
                        }
                    }
                },
            }
        },
    }
}

/// The step on body bytes of a known length: a failed read is tried again;
/// the first bytes give the message a body (see [`body_ensured`]).
pub open spec fn body_step(old: Message, size: usize, data: Option<Seq<u8>>, r: Read11Progress, new: Message) -> bool {
    match data {
        None => r == Read11Progress::Next(Read11State::Body(size)) && new == old,
        Some(d) => if d.len() < 1 {
            r == Read11Progress::Finished(1) && new == old
        } else {
            exists|mid: Message, ok: bool|
                #![trigger body_ensured(old, mid, ok)]
                body_ensured(old, mid, ok) && if !ok {
                    r == Read11Progress::Finished(400) && new == mid
                } else {
                    &&& new.fl == mid.fl
                    &&& new.header == mid.header
                    &&& body_written(mid.body.unwrap(), d, new.body)
                    &&& r == if size - d.len() == 0 {
                        Read11Progress::Finished(0)
                    } else {
                        Read11Progress::Next(Read11State::Body((size - d.len()) as usize))
                    }
                }
        },
    }
}

/// The chunk-size step: the line without its last two bytes is the size;
/// size 0 is the last chunk.
pub open spec fn chunk_size_step(data: Option<Seq<u8>>, r: Read11Progress) -> bool {
    match data {
        None => r == Read11Progress::Finished(400),
        Some(d) => match utf8_prefix(d, 2) {
            None => r == Read11Progress::Finished(400),
            Some(line) => match parse_usize_spec(line) {
                Ok(v) => r == if v == 0 {
                    Read11Progress::Next(Read11State::LastChunkEnd)
                } else {
                    Read11Progress::Next(Read11State::ChunkData(v, v))
                },
                Err(_) => r == Read11Progress::Finished(400),
            },
        },
    }
}

/// The step on chunk bytes: they are written to the body.
pub open spec fn chunk_data_step(
    old: Message,
    size: usize,
    remain: usize,
    data: Option<Seq<u8>>,
    r: Read11Progress,
    new: Message,
) -> bool {
    match data {
        None => r == Read11Progress::Finished(400) && new == old,
        Some(d) => if d.len() < 1 {
            r == Read11Progress::Finished(1) && new == old
        } else if old.body is None {
            r == Read11Progress::Finished(400) && new == old
        } else {
            &&& new.fl == old.fl
            &&& new.header == old.header
            &&& body_written(old.body.unwrap(), d, new.body)
            &&& r == if remain - d.len() == 0 {
                Read11Progress::Next(Read11State::ChunkEnd(size))
            } else {
                Read11Progress::Next(Read11State::ChunkData(size, (remain - d.len()) as usize))
            }
        },
    }
}

} // verus!
