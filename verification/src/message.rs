//! An HTTP/1.x message as the connection reads it: the three words of the
//! first line, the header fields and the body bytes, with the steps that
//! decide, read by read, what the head and the body become.
use vstd::prelude::*;
use vstd::utf8::encode_utf8;

use crate::internal::header::{any_contains, contains};
use crate::text::{bytes_text, parse_usize, parse_usize_spec, text_of, trim, trim_string};
use crate::uitls::multi_map::{appended, MultiMap};

verus! {

/// The longest header name the reader accepts, in bytes.
pub const MAX_HEADER_NAME_LENGTH: usize = 256;

/// Where the reading of a message head stands.
#[derive(Debug, Clone, Copy, PartialEq, Eq, Structural)]
pub enum ReadState {
    /// Nothing read yet: the method comes next.
    Start,
    /// The method was read: the target comes next.
    FirstLine0,
    /// The target was read: the version line comes next.
    FirstLine1,
    /// The first line was read: header lines come next.
    FirstLine2,
    /// The empty line after the headers was read.
    HeadersDone,
}

/// How reading a message ended.
#[derive(Debug, Clone, Copy, PartialEq, Eq, Structural)]
pub enum MessageReadCode {
    Success,
    ConnReadError,
    BadDatagram,
    ReachMaxBodySize,
    BadContentLength,
    ReachMaxHeadersCount,
    BadChunkSize,
}

/// What to read next off the connection.
#[derive(Debug, Clone, Copy, PartialEq, Eq, Structural)]
pub enum ReadPlan {
    /// Read up to and including `delim`, at most `limit` bytes.
    Until { delim: u8, limit: u64 },
    /// Read one line of UTF-8 text, at most `limit` bytes.
    Line { limit: u64 },
    /// Read nothing.
    Stop,
}

/// The outcome of one step of reading the head.
#[derive(Debug, Clone, Copy, PartialEq, Eq, Structural)]
pub enum ReadProgress {
    Next(ReadState),
    Finished(MessageReadCode),
}

/// The bytes a body is made of.
pub struct MessageBody {
    internal: Vec<u8>,
}

impl View for MessageBody {
    type V = Seq<u8>;

    closed spec fn view(&self) -> Seq<u8> {
        self.internal@
    }
}

impl Default for MessageBody {
    fn default() -> (b: Self)
        ensures
            b@ == Seq::<u8>::empty(),
    {
        MessageBody { internal: Vec::new() }
    }
}

impl MessageBody {
    /// Appends `buf`; always takes all of it.
    pub fn write(&mut self, buf: &[u8]) -> (n: usize)
        ensures
            final(self)@ == old(self)@ + buf@,
            n == buf.len(),
    {
        let mut i: usize = 0;
        let ghost start = self.internal@;
        while i < buf.len()
            invariant
                i <= buf.len(),
                self.internal@ == start + buf@.take(i as int),
            decreases buf.len() - i,
        {
            self.internal.push(buf[i]);
            assert(buf@.take(i + 1) =~= buf@.take(i as int).push(buf@[i as int]));
            i += 1;
        }
        assert(buf@.take(buf.len() as int) =~= buf@);
        buf.len()
    }

    pub fn bytes(&self) -> (r: &[u8])
        ensures
            r@ == self@,
    {
        self.internal.as_slice()
    }

    pub fn len(&self) -> (n: usize)
        ensures
            n == self@.len(),
    {
        self.internal.len()
    }

    pub fn is_empty(&self) -> (r: bool)
        ensures
            r == (self@.len() == 0),
    {
        self.internal.len() == 0
    }
}

/// A message: first line, headers, body.
pub struct Message {
    pub firstline: (String, String, String),
    pub headers: MultiMap,
    pub body: MessageBody,
}

impl Default for Message {
    fn default() -> (m: Self)
        ensures
            m.firstline.0@ == Seq::<char>::empty(),
            m.firstline.1@ == Seq::<char>::empty(),
            m.firstline.2@ == Seq::<char>::empty(),
            m.headers.wf(),
            !m.headers.is_map(),
            m.headers.pairs().len() == 0,
            m.body@ == Seq::<u8>::empty(),
    {
        Message {
            firstline: (String::new(), String::new(), String::new()),
            headers: MultiMap::new(),
            body: MessageBody::default(),
        }
    }
}

// ---------------------------------------------------------------------------
// Bytes of the head
// ---------------------------------------------------------------------------
/// A printable ISO-8859-1 byte: `' '..='~'` or `0xa0..=0xff`.
pub open spec fn latin1_graphic(b: u8) -> bool {
    (32 <= b && b <= 126) || 160 <= b
}

pub open spec fn all_latin1(s: Seq<u8>) -> bool {
    forall|i: int| 0 <= i < s.len() ==> latin1_graphic(#[trigger] s[i])
}

/// Whether `b` is a printable ISO-8859-1 byte.
pub fn is_latin_1_graphic(b: u8) -> (r: bool)
    ensures
        r == latin1_graphic(b),
{
    (32 <= b && b <= 126) || 160 <= b
}

fn all_latin1_range(d: &[u8], lo: usize, hi: usize) -> (r: bool)
    requires
        lo <= hi <= d.len(),
    ensures
        r == all_latin1(d@.subrange(lo as int, hi as int)),
{
    let ghost s = d@.subrange(lo as int, hi as int);
    let mut i: usize = lo;
    while i < hi
        invariant
            lo <= i <= hi <= d.len(),
            s == d@.subrange(lo as int, hi as int),
            forall|j: int| 0 <= j < i - lo ==> latin1_graphic(#[trigger] s[j]),
        decreases hi - i,
    {
        if !is_latin_1_graphic(d[i]) {
            assert(s[i - lo] == d@[i as int]);
            return false;
        }
        assert(s[i - lo] == d@[i as int]);
        i += 1;
    }
    true
}

fn copy_range(d: &[u8], lo: usize, hi: usize) -> (v: Vec<u8>)
    requires
        lo <= hi <= d.len(),
    ensures
        v@ == d@.subrange(lo as int, hi as int),
{
    let mut v: Vec<u8> = Vec::new();
    let mut i: usize = lo;
    while i < hi
        invariant
            lo <= i <= hi <= d.len(),
            v@ == d@.subrange(lo as int, i as int),
        decreases hi - i,
    {
        v.push(d[i]);
        assert(d@.subrange(lo as int, i + 1) =~= d@.subrange(lo as int, i as int).push(d@[i as int]));
        i += 1;
    }
    v
}

/// The bytes kept of a first-line word: the text already there, as UTF-8,
/// followed by what was read, cut to `n` bytes.
pub open spec fn cut_token(old: Seq<char>, read: Seq<u8>, n: int) -> Seq<u8> {
    (encode_utf8(old) + read).take(n)
}

fn cut_token_exec(old: &String, read: &[u8], n: usize) -> (v: Vec<u8>)
    requires
        n <= old@.len() + read.len(),
        n <= read.len(),
    ensures
        v@ == cut_token(old@, read@, n as int),
{
    let ob = old.as_str().as_bytes();
    let ghost all = ob@ + read@;
    let mut v: Vec<u8> = Vec::new();
    let mut i: usize = 0;
    while i < n
        invariant
            i <= n <= read.len(),
            all == ob@ + read@,
            ob@ == encode_utf8(old@),
            v@ == all.take(i as int),
        decreases n - i,
    {
        let b = if i < ob.len() {
            ob[i]
        } else {
            read[i - ob.len()]
        };
        assert(b == all[i as int]);
        v.push(b);
        assert(all.take(i + 1) =~= all.take(i as int).push(all[i as int]));
        i += 1;
    }
    v
}

/// The position of the first `c` at or after `i`.
pub open spec fn first_byte(l: Seq<u8>, c: u8, i: int) -> Option<int>
    decreases l.len() - i,
{
    if i < 0 || i >= l.len() {
        None
    } else if l[i] == c {
        Some(i)
    } else {
        first_byte(l, c, i + 1)
    }
}

pub proof fn lemma_first_byte(l: Seq<u8>, c: u8, i: int)
    requires
        0 <= i,
    ensures
        first_byte(l, c, i) matches Some(j) ==> i <= j < l.len() && l[j] == c && forall|k: int|
            i <= k < j ==> l[k] != c,
        first_byte(l, c, i) is None ==> forall|k: int| i <= k < l.len() ==> l[k] != c,
    decreases l.len() - i,
{
    if i < l.len() && l[i] != c {
        lemma_first_byte(l, c, i + 1);
    }
}

/// What one header line (without its line end) says.
pub enum HeaderLine {
    /// The line breaks the rules: a byte that is not printable, a name longer
    /// than [`MAX_HEADER_NAME_LENGTH`], or nothing after the colon.
    Bad,
    /// A line without a colon, passed over.
    Skip,
    /// A field: the trimmed name before the first colon and the trimmed value after it.
    Field(Seq<char>, Seq<char>),
}

pub open spec fn header_line(l: Seq<u8>) -> HeaderLine {
    let n = match first_byte(l, 58u8, 0) {
        Some(c) => c,
        None => l.len() as int,
    };
    if !all_latin1(l.take(n)) || n > MAX_HEADER_NAME_LENGTH {
        HeaderLine::Bad
    } else {
        match first_byte(l, 58u8, 0) {
            None => HeaderLine::Skip,
            Some(c) => if c + 1 >= l.len() || !all_latin1(l.skip(c + 1)) {
                HeaderLine::Bad
            } else {
                HeaderLine::Field(trim(text_of(l.take(c))), trim(text_of(l.skip(c + 1))))
            },
        }
    }
}

/// The first value of `k`, if there is one.
pub open spec fn first_value(m: MultiMap, k: Seq<char>) -> Option<Seq<char>> {
    match m.lookup(k) {
        Some(vs) => if vs.len() > 0 {
            Some(vs[0])
        } else {
            None
        },
        None => None,
    }
}

/// The body length the headers announce: 0 without `content-length`, an
/// error when its first value is not a `usize`.
pub open spec fn content_length_of(m: MultiMap) -> Result<usize, ()> {
    match first_value(m, "content-length"@) {
        Some(v) => match parse_usize_spec(v) {
            Ok(n) => Ok(n),
            Err(_) => Err(()),
        },
        None => Ok(0),
    }
}

/// Whether a `transfer-encoding` value mentions `chunked`.
pub open spec fn is_chunked(m: MultiMap) -> bool {
    m.lookup("transfer-encoding"@) matches Some(vs) && any_contains(vs, "chunked"@)
}

/// The bytes of a read, if it succeeded.
pub open spec fn bytes_of(data: Option<&[u8]>) -> Option<Seq<u8>> {
    match data {
        Some(d) => Some(d@),
        None => None,
    }
}

/// What to read in each state of the head.
pub open spec fn read_plan(state: ReadState, max_url_size: u64, max_header_line_size: u64) -> ReadPlan {
    match state {
        ReadState::Start => ReadPlan::Until { delim: 32u8, limit: 128 },
        ReadState::FirstLine0 => ReadPlan::Until { delim: 32u8, limit: max_url_size },
        ReadState::FirstLine1 => ReadPlan::Line { limit: 128 },
        ReadState::FirstLine2 => ReadPlan::Until { delim: 10u8, limit: max_header_line_size },
        ReadState::HeadersDone => ReadPlan::Stop,
    }
}

impl ReadState {
    /// What to read next in this state.
    pub fn plan(&self, max_url_size: u64, max_header_line_size: u64) -> (p: ReadPlan)
        ensures
            p == read_plan(*self, max_url_size, max_header_line_size),
    {
        match self {
            ReadState::Start => ReadPlan::Until { delim: 32u8, limit: 128 },
            ReadState::FirstLine0 => ReadPlan::Until { delim: 32u8, limit: max_url_size },
            ReadState::FirstLine1 => ReadPlan::Line { limit: 128 },
            ReadState::FirstLine2 => ReadPlan::Until { delim: 10u8, limit: max_header_line_size },
            ReadState::HeadersDone => ReadPlan::Stop,
        }
    }
}

/// The step on a first-line word read up to a space: `None` means the read
/// failed. The word keeps all but the last byte read; an empty read or a
/// byte that is not printable is an error.
pub open spec fn word_step(
    old: Seq<char>,
    data: Option<Seq<u8>>,
    next: ReadState,
    r: ReadProgress,
    new: Seq<char>,
) -> bool {
    match data {
        None => r == ReadProgress::Finished(MessageReadCode::ConnReadError) && new == old,
        Some(d) => if d.len() < 1 {
            r == ReadProgress::Finished(MessageReadCode::BadDatagram) && new == old
        } else {
            let t = cut_token(old, d, d.len() - 1);
            &&& new == text_of(t)
            &&& r == if all_latin1(t) {
                ReadProgress::Next(next)
            } else {
                ReadProgress::Finished(MessageReadCode::BadDatagram)
            }
        },
    }
}

/// The step on the version line: it keeps all but the last two bytes read;
/// a line shorter than three bytes or a byte that is not printable is an
/// error.
pub open spec fn version_step(old: Seq<char>, data: Option<Seq<u8>>, r: ReadProgress, new: Seq<char>) -> bool {
    match data {
        None => r == ReadProgress::Finished(MessageReadCode::ConnReadError) && new == old,
        Some(d) => if d.len() < 3 {
            r == ReadProgress::Finished(MessageReadCode::BadDatagram) && new == text_of(
                encode_utf8(old) + d,
            )
        } else {
            let t = cut_token(old, d, d.len() - 2);
            &&& new == text_of(t)
            &&& r == if all_latin1(t) {
                ReadProgress::Next(ReadState::FirstLine2)
            } else {
                ReadProgress::Finished(MessageReadCode::BadDatagram)
            }
        },
    }
}

/// The step on a header line read up to `\n`: two bytes end the head; a
/// field is added; with `max_headers_count` at 0 the first field added is
/// one too many.
pub open spec fn header_step(
    old: MultiMap,
    data: Option<Seq<u8>>,
    max_headers_count: usize,
    r: ReadProgress,
    new: MultiMap,
) -> bool {
    match data {
        None => r == ReadProgress::Finished(MessageReadCode::ConnReadError) && new == old,
        Some(d) => if d.len() < 2 {
            r == ReadProgress::Finished(MessageReadCode::BadDatagram) && new == old
        } else if d.len() == 2 {
            r == ReadProgress::Next(ReadState::HeadersDone) && new == old
        } else {
            match header_line(d.take(d.len() - 2)) {
                HeaderLine::Bad => r == ReadProgress::Finished(MessageReadCode::BadDatagram) && new
                    == old,
                HeaderLine::Skip => r == ReadProgress::Next(ReadState::FirstLine2) && new == old,
                HeaderLine::Field(k, v) => {
                    &&& appended(old, new, k, v)
                    &&& r == if max_headers_count < 1 {
                        ReadProgress::Finished(MessageReadCode::ReachMaxHeadersCount)
                    } else {
                        ReadProgress::Next(ReadState::FirstLine2)
                    }
                },
            }
        },
    }
}

/// The outcome of one step of reading a body.
#[derive(Debug, Clone, Copy, PartialEq, Eq, Structural)]
pub enum BodyProgress {
    /// This many bytes are still to come.
    More(usize),
    Finished(MessageReadCode),
}

/// How a body is to be read.
#[derive(Debug, Clone, Copy, PartialEq, Eq, Structural)]
pub enum BodyPlan {
    /// In chunks.
    Chunked,
    /// Exactly this many bytes.
    Length(usize),
    /// Not at all: reading ends with this code.
    Fail(MessageReadCode),
}

/// Where the reading of a chunked body stands.
#[derive(Debug, Clone, Copy, PartialEq, Eq, Structural)]
pub enum ChunkState {
    /// The size line comes next.
    Size,
    /// This many bytes of the chunk are still to come.
    Data(usize),
    /// The line end after the chunk comes next.
    Tail,
}

/// The outcome of one step of reading a chunked body: the next state and
/// the bytes announced so far.
#[derive(Debug, Clone, Copy, PartialEq, Eq, Structural)]
pub enum ChunkProgress {
    Next(ChunkState, usize),
    Finished(MessageReadCode),
}

/// How much to read of a body with `remain` bytes to come through a buffer
/// of `cap` bytes.
pub open spec fn read_len(remain: usize, cap: usize) -> usize {
    if remain < cap {
        remain
    } else {
        cap
    }
}

/// The step on a chunked body.
pub open spec fn chunk_step(
    st: ChunkState,
    read_size: usize,
    max_body_size: usize,
    data: Option<Seq<u8>>,
    r: ChunkProgress,
) -> bool {
    match st {
        ChunkState::Size => match data {
            None => r == ChunkProgress::Finished(MessageReadCode::ConnReadError),
            Some(d) => match parse_usize_spec(trim(text_of(d))) {
                Err(_) => r == ChunkProgress::Finished(MessageReadCode::BadChunkSize),
                Ok(n) => if read_size + n > max_body_size {
                    r == ChunkProgress::Finished(MessageReadCode::ReachMaxBodySize)
                } else if n < 1 {
                    r == ChunkProgress::Next(ChunkState::Tail, (read_size + n) as usize)
                } else {
                    r == ChunkProgress::Next(ChunkState::Data(n), (read_size + n) as usize)
                },
            },
        },
        ChunkState::Data(remain) => match data {
            None => r == ChunkProgress::Finished(MessageReadCode::ConnReadError),
            Some(d) => if remain - d.len() < 1 {
                r == ChunkProgress::Next(ChunkState::Tail, read_size)
            } else {
                r == ChunkProgress::Next(ChunkState::Data((remain - d.len()) as usize), read_size)
            },
        },
        ChunkState::Tail => match data {
            None => r == ChunkProgress::Finished(MessageReadCode::BadDatagram),
            Some(_) => r == ChunkProgress::Finished(MessageReadCode::Success),
        },
    }
}

impl Message {
    /// The length that `content-length` announces; see [`content_length_of`].
    pub fn get_content_length(&self) -> (r: Result<usize, ()>)
        requires
            self.headers.wf(),
        ensures
            r == content_length_of(self.headers),
    {
        match self.headers.get("content-length") {
            Some(vs) => match parse_usize(vs.as_str()) {
                Ok(num) => Ok(num),
                Err(_) => Err(()),
            },
            None => Ok(0),
        }
    }

    /// One step of reading the head, given what the read of
    /// [`ReadState::plan`] returned (`None` when it failed).
    pub fn read_headers_step(&mut self, state: ReadState, data: Option<&[u8]>, max_headers_count: usize) -> (r: ReadProgress)
        requires
            old(self).headers.wf(),
        ensures
            final(self).headers.wf(),
            final(self).body@ == old(self).body@,
            state == ReadState::Start ==> word_step(
                old(self).firstline.0@,
                bytes_of(data),
                ReadState::FirstLine0,
                r,
                final(self).firstline.0@,
            ) && final(self).firstline.1 == old(self).firstline.1 && final(self).firstline.2
                == old(self).firstline.2 && final(self).headers == old(self).headers,
            state == ReadState::FirstLine0 ==> word_step(
                old(self).firstline.1@,
                bytes_of(data),
                ReadState::FirstLine1,
                r,
                final(self).firstline.1@,
            ) && final(self).firstline.0 == old(self).firstline.0 && final(self).firstline.2
                == old(self).firstline.2 && final(self).headers == old(self).headers,
            state == ReadState::FirstLine1 ==> version_step(
                old(self).firstline.2@,
                bytes_of(data),
                r,
                final(self).firstline.2@,
            ) && final(self).firstline.0 == old(self).firstline.0 && final(self).firstline.1
                == old(self).firstline.1 && final(self).headers == old(self).headers,
            state == ReadState::FirstLine2 ==> header_step(
                old(self).headers,
                bytes_of(data),
                max_headers_count,
                r,
                final(self).headers,
            ) && final(self).firstline == old(self).firstline,
            state == ReadState::HeadersDone ==> r == ReadProgress::Finished(MessageReadCode::Success)
                && *final(self) == *old(self),
    {
        match state {
            ReadState::Start => {
                let (r, w) = Self::read_word(&self.firstline.0, data, ReadState::FirstLine0);
                match w {
                    Some(w) => {
                        self.firstline.0 = w;
                    },
                    None => {},
                }
                r
            },
            ReadState::FirstLine0 => {
                let (r, w) = Self::read_word(&self.firstline.1, data, ReadState::FirstLine1);
                match w {
                    Some(w) => {
                        self.firstline.1 = w;
                    },
                    None => {},
                }
                r
            },
            ReadState::FirstLine1 => {
                let (r, w) = Self::read_version(&self.firstline.2, data);
                match w {
                    Some(w) => {
                        self.firstline.2 = w;
                    },
                    None => {},
                }
                r
            },
            ReadState::FirstLine2 => self.read_header_line(data, max_headers_count),
            ReadState::HeadersDone => ReadProgress::Finished(MessageReadCode::Success),
        }
    }

    fn read_word(old: &String, data: Option<&[u8]>, next: ReadState) -> (res: (
        ReadProgress,
        Option<String>,
    ))
        ensures
            word_step(
                old@,
                bytes_of(data),
                next,
                res.0,
                match res.1 {
                    Some(w) => w@,
                    None => old@,
                },
            ),
    {
        match data {
            None => (ReadProgress::Finished(MessageReadCode::ConnReadError), None),
            Some(d) => {
                if d.len() < 1 {
                    return (ReadProgress::Finished(MessageReadCode::BadDatagram), None);
                }
                let t = cut_token_exec(old, d, d.len() - 1);
                let w = bytes_text(t.as_slice());
                let ok = all_latin1_range(t.as_slice(), 0, t.len());
                assert(t@.subrange(0, t@.len() as int) =~= t@);
                if ok {
                    (ReadProgress::Next(next), Some(w))
                } else {
                    (ReadProgress::Finished(MessageReadCode::BadDatagram), Some(w))
                }
            },
        }
    }

    fn read_version(old: &String, data: Option<&[u8]>) -> (res: (ReadProgress, Option<String>))
        ensures
            version_step(
                old@,
                bytes_of(data),
                res.0,
                match res.1 {
                    Some(w) => w@,
                    None => old@,
                },
            ),
    {
        match data {
            None => (ReadProgress::Finished(MessageReadCode::ConnReadError), None),
            Some(d) => {
                if d.len() < 3 {
                    let ob = old.as_str().as_bytes();
                    let mut all = copy_range(ob, 0, ob.len());
                    let rest = copy_range(d, 0, d.len());
                    assert(ob@.subrange(0, ob@.len() as int) =~= ob@);
                    assert(d@.subrange(0, d@.len() as int) =~= d@);
                    let mut rest = rest;
                    all.append(&mut rest);
                    let w = bytes_text(all.as_slice());
                    return (ReadProgress::Finished(MessageReadCode::BadDatagram), Some(w));
                }
                let t = cut_token_exec(old, d, d.len() - 2);
                let w = bytes_text(t.as_slice());
                let ok = all_latin1_range(t.as_slice(), 0, t.len());
                assert(t@.subrange(0, t@.len() as int) =~= t@);
                if ok {
                    (ReadProgress::Next(ReadState::FirstLine2), Some(w))
                } else {
                    (ReadProgress::Finished(MessageReadCode::BadDatagram), Some(w))
                }
            },
        }
    }

    fn read_header_line(&mut self, data: Option<&[u8]>, max_headers_count: usize) -> (r: ReadProgress)
        requires
            old(self).headers.wf(),
        ensures
            final(self).headers.wf(),
            final(self).body@ == old(self).body@,
            final(self).firstline == old(self).firstline,
            header_step(
                old(self).headers,
                bytes_of(data),
                max_headers_count,
                r,
                final(self).headers,
            ),
    {
        let d = match data {
            None => {
                return ReadProgress::Finished(MessageReadCode::ConnReadError);
            },
            Some(d) => d,
        };
        if d.len() < 2 {
            return ReadProgress::Finished(MessageReadCode::BadDatagram);
        }
        if d.len() == 2 {
            return ReadProgress::Next(ReadState::HeadersDone);
        }
        let hi = d.len() - 2;
        let ghost l = d@.take(hi as int);
        proof {
            lemma_first_byte(l, 58u8, 0);
        }
        let mut idx: usize = 0;
        while idx < hi
            invariant
                idx <= hi,
                idx <= MAX_HEADER_NAME_LENGTH,
                hi + 2 == d.len(),
                l == d@.take(hi as int),
                data == Some(d),
                self.headers.wf(),
                self.headers == old(self).headers,
                self.body@ == old(self).body@,
                self.firstline == old(self).firstline,
                forall|j: int| 0 <= j < idx ==> #[trigger] l[j] != 58u8 && latin1_graphic(l[j]) && j
                    < MAX_HEADER_NAME_LENGTH,
            decreases hi - idx,
        {
            let c = d[idx];
            assert(l[idx as int] == c);
            if !is_latin_1_graphic(c) {
                proof {
                    lemma_first_byte(l, 58u8, 0);
                    let n = match first_byte(l, 58u8, 0) {
                        Some(p) => p,
                        None => l.len() as int,
                    };
                    assert(n > idx);
                    assert(l.take(n)[idx as int] == c);
                }
                return ReadProgress::Finished(MessageReadCode::BadDatagram);
            }
            if c == 58u8 {
                proof {
                    lemma_first_byte(l, 58u8, 0);
                    assert(first_byte(l, 58u8, 0) == Some(idx as int));
                    assert forall|j: int| 0 <= j < idx implies latin1_graphic(
                        #[trigger] l.take(idx as int)[j],
                    ) by {
                        assert(l.take(idx as int)[j] == l[j]);
                    }
                }
                if idx + 1 >= hi {
                    return ReadProgress::Finished(MessageReadCode::BadDatagram);
                }
                let ok = all_latin1_range(d, idx + 1, hi);
                assert(l.skip(idx + 1) =~= d@.subrange(idx + 1, hi as int));
                if !ok {
                    return ReadProgress::Finished(MessageReadCode::BadDatagram);
                }
                let kb = copy_range(d, 0, idx);
                let vb = copy_range(d, idx + 1, hi);
                assert(kb@ =~= l.take(idx as int));
                let key = trim_string(bytes_text(kb.as_slice()).as_str());
                let value = trim_string(bytes_text(vb.as_slice()).as_str());
                assert(all_latin1(l.take(idx as int)));
                assert(idx <= MAX_HEADER_NAME_LENGTH);
                assert(vb@ == l.skip(idx + 1));
                assert(header_line(l) == HeaderLine::Field(key@, value@));
                self.headers.append(key.as_str(), value.as_str());
                if max_headers_count < 1 {
                    return ReadProgress::Finished(MessageReadCode::ReachMaxHeadersCount);
                }
                return ReadProgress::Next(ReadState::FirstLine2);
            }
            if idx >= MAX_HEADER_NAME_LENGTH {
                proof {
                    lemma_first_byte(l, 58u8, 0);
                    let n = match first_byte(l, 58u8, 0) {
                        Some(p) => p,
                        None => l.len() as int,
                    };
                    assert(n > idx);
                }
                return ReadProgress::Finished(MessageReadCode::BadDatagram);
            }
            idx += 1;
        }
        proof {
            lemma_first_byte(l, 58u8, 0);
            assert(first_byte(l, 58u8, 0) is None);
            assert(hi <= MAX_HEADER_NAME_LENGTH);
            assert forall|j: int| 0 <= j < l.len() implies latin1_graphic(
                #[trigger] l.take(l.len() as int)[j],
            ) by {
                assert(l.take(l.len() as int)[j] == l[j]);
            }
        }
        assert(all_latin1(l.take(l.len() as int)));
        assert(header_line(l) == HeaderLine::Skip);
        ReadProgress::Next(ReadState::FirstLine2)
    }

    /// Appends bytes to the body.
    pub fn write_raw(&mut self, v: &[u8])
        ensures
            final(self).body@ == old(self).body@ + v@,
            final(self).firstline == old(self).firstline,
            final(self).headers == old(self).headers,
    {
        self.body.write(v);
    }

    /// How to read the body: in chunks when `transfer-encoding` says
    /// `chunked`, else the announced length, which must parse and not
    /// exceed `max_body_size`.
    pub fn body_plan(&self, max_body_size: usize) -> (p: BodyPlan)
        requires
            self.headers.wf(),
        ensures
            p == if is_chunked(self.headers) {
                BodyPlan::Chunked
            } else {
                match content_length_of(self.headers) {
                    Ok(n) => if n > max_body_size {
                        BodyPlan::Fail(MessageReadCode::ReachMaxBodySize)
                    } else {
                        BodyPlan::Length(n)
                    },
                    Err(_) => BodyPlan::Fail(MessageReadCode::BadContentLength),
                }
            },
    {
        if contains(self.headers.getall("transfer-encoding"), "chunked") {
            return BodyPlan::Chunked;
        }
        match self.get_content_length() {
            Ok(n) => if n > max_body_size {
                BodyPlan::Fail(MessageReadCode::ReachMaxBodySize)
            } else {
                BodyPlan::Length(n)
            },
            Err(_) => BodyPlan::Fail(MessageReadCode::BadContentLength),
        }
    }

    /// How to read a body of the announced length, with no upper bound.
    pub fn const_length_plan(&self) -> (p: BodyPlan)
        requires
            self.headers.wf(),
        ensures
            p == match content_length_of(self.headers) {
                Ok(n) => BodyPlan::Length(n),
                Err(_) => BodyPlan::Fail(MessageReadCode::BadContentLength),
            },
    {
        match self.get_content_length() {
            Ok(n) => BodyPlan::Length(n),
            Err(_) => BodyPlan::Fail(MessageReadCode::BadContentLength),
        }
    }

    /// How many bytes the next read of a body may take.
    pub fn body_read_len(remain: usize, cap: usize) -> (n: usize)
        ensures
            n == read_len(remain, cap),
    {
        if remain < cap {
            remain
        } else {
            cap
        }
    }

    /// One step of reading a body of known length, `remain` bytes still to
    /// come, given what the read returned (`None` when it failed). A body
    /// with nothing to come ends at once, without a read.
    pub fn const_body_step(&mut self, remain: usize, data: Option<&[u8]>) -> (r: BodyProgress)
        requires
            data matches Some(d) ==> d.len() <= remain,
        ensures
            final(self).firstline == old(self).firstline,
            final(self).headers == old(self).headers,
            remain < 1 ==> r == BodyProgress::Finished(MessageReadCode::Success) && final(self).body@
                == old(self).body@,
            remain >= 1 && data is None ==> r == BodyProgress::Finished(
                MessageReadCode::ConnReadError,
            ) && final(self).body@ == old(self).body@,
            remain >= 1 ==> (data matches Some(d) ==> final(self).body@ == old(self).body@ + d@ && r
                == if remain - d.len() < 1 {
                BodyProgress::Finished(MessageReadCode::Success)
            } else {
                BodyProgress::More((remain - d.len()) as usize)
            }),
    {
        if remain < 1 {
            return BodyProgress::Finished(MessageReadCode::Success);
        }
        match data {
            None => BodyProgress::Finished(MessageReadCode::ConnReadError),
            Some(d) => {
                self.write_raw(d);
                let left = remain - d.len();
                if left < 1 {
                    BodyProgress::Finished(MessageReadCode::Success)
                } else {
                    BodyProgress::More(left)
                }
            },
        }
    }

    /// One step of reading a chunked body: `read_size` bytes were announced
    /// so far, at most `max_body_size` may be. After the first chunk and its
    /// line end the body is complete.
    pub fn chunked_body_step(
        &mut self,
        st: ChunkState,
        read_size: usize,
        max_body_size: usize,
        data: Option<&[u8]>,
    ) -> (r: ChunkProgress)
        requires
            st matches ChunkState::Data(remain) ==> (data matches Some(d) ==> d.len() <= remain),
        ensures
            final(self).firstline == old(self).firstline,
            final(self).headers == old(self).headers,
            chunk_step(st, read_size, max_body_size, bytes_of(data), r),
            final(self).body@ == match (st, data) {
                (ChunkState::Data(_), Some(d)) => old(self).body@ + d@,
                _ => old(self).body@,
            },
    {
        match st {
            ChunkState::Size => match data {
                None => ChunkProgress::Finished(MessageReadCode::ConnReadError),
                Some(d) => {
                    let line = bytes_text(d);
                    let t = trim_string(line.as_str());
                    match parse_usize(t.as_str()) {
                        Err(_) => ChunkProgress::Finished(MessageReadCode::BadChunkSize),
                        Ok(n) => {
                            if n > max_body_size || read_size > max_body_size - n {
                                ChunkProgress::Finished(MessageReadCode::ReachMaxBodySize)
                            } else if n < 1 {
                                ChunkProgress::Next(ChunkState::Tail, read_size + n)
                            } else {
                                ChunkProgress::Next(ChunkState::Data(n), read_size + n)
                            }
                        },
                    }
                },
            },
            ChunkState::Data(remain) => match data {
                None => ChunkProgress::Finished(MessageReadCode::ConnReadError),
                Some(d) => {
                    self.write_raw(d);
                    let left = remain - d.len();
                    if left < 1 {
                        ChunkProgress::Next(ChunkState::Tail, read_size)
                    } else {
                        ChunkProgress::Next(ChunkState::Data(left), read_size)
                    }
                },
            },
            ChunkState::Tail => match data {
                None => ChunkProgress::Finished(MessageReadCode::BadDatagram),
                Some(_) => ChunkProgress::Finished(MessageReadCode::Success),
            },
        }
    }
}

/// A header line made of a name without `:`, a colon and a non-empty
/// value, all printable and the name at most [`MAX_HEADER_NAME_LENGTH`]
/// bytes, reads as the field of the trimmed name and value.
pub proof fn law_header_line_field(k: Seq<u8>, v: Seq<u8>)
    requires
        all_latin1(k),
        all_latin1(v),
        forall|i: int| 0 <= i < k.len() ==> #[trigger] k[i] != 58u8,
        k.len() <= MAX_HEADER_NAME_LENGTH,
        v.len() >= 1,
    ensures
        header_line(k + seq![58u8] + v) == HeaderLine::Field(trim(text_of(k)), trim(text_of(v))),
{
    let l = k + seq![58u8] + v;
    lemma_first_byte(l, 58u8, 0);
    assert(l[k.len() as int] == 58u8);
    assert forall|i: int| 0 <= i < k.len() implies #[trigger] l[i] != 58u8 by {
        assert(l[i] == k[i]);
    }
    lemma_first_byte_at(l, 58u8, k.len() as int);
    assert(l.take(k.len() as int) =~= k);
    assert(l.skip(k.len() as int + 1) =~= v);
}

/// `first_byte` finds the first occurrence.
pub proof fn lemma_first_byte_at(l: Seq<u8>, c: u8, j: int)
    requires
        0 <= j < l.len(),
        l[j] == c,
        forall|i: int| 0 <= i < j ==> l[i] != c,
    ensures
        first_byte(l, c, 0) == Some(j),
{
    lemma_first_byte(l, c, 0);
    match first_byte(l, c, 0) {
        Some(p) => {
            if p < j {
                assert(l[p] != c);
            }
            if p > j {
                assert(l[j] != c);
            }
        },
        None => {
            assert(l[j] != c);
        },
    }
}

} // verus!
