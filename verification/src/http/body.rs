//! Message bodies: a byte buffer with a read cursor, written through a
//! compressing encoder or read through a decoder when the body carries a
//! content coding.
use bytes::BufMut as _;
use std::io::Read as _;
use std::io::Write as _;
use vstd::prelude::*;

verus! {

/// A `Content-Encoding` a body may carry.
#[derive(Clone, Copy, Debug, PartialEq, Eq, Structural)]
pub enum CompressionType {
    Gzip,
    Deflate,
    Br,
}

// ---------------------------------------------------------------------------
// The byte store
// ---------------------------------------------------------------------------
#[verifier::external_type_specification]
#[verifier::external_body]
pub struct ExBytesMut(bytes::BytesMut);

/// The bytes a `BytesMut` holds.
pub uninterp spec fn bytes_mut_contents(b: bytes::BytesMut) -> Seq<u8>;

/// An empty buffer.
///
/// Trusted: calls `BytesMut::new`, documented to return a buffer of length 0.
#[verifier::external_body]
fn bytes_mut_new() -> (b: bytes::BytesMut)
    ensures
        bytes_mut_contents(b) == Seq::<u8>::empty(),
{
    bytes::BytesMut::new()
}

/// An empty buffer with room for `cap` bytes.
///
/// Trusted: calls `BytesMut::with_capacity`, which makes an empty buffer.
#[verifier::external_body]
fn bytes_mut_with_capacity(cap: usize) -> (b: bytes::BytesMut)
    ensures
        bytes_mut_contents(b) == Seq::<u8>::empty(),
{
    bytes::BytesMut::with_capacity(cap)
}

/// Appends `s`.
///
/// Trusted: calls `BufMut::put_slice` of `BytesMut`, which appends the bytes
/// (through `extend_from_slice`); it panics when the new length would exceed
/// `isize::MAX`, which the `requires` rules out.
#[verifier::external_body]
fn bytes_mut_put_slice(b: &mut bytes::BytesMut, s: &[u8])
    requires
        bytes_mut_contents(*old(b)).len() + s.len() <= isize::MAX,
    ensures
        bytes_mut_contents(*final(b)) == bytes_mut_contents(*old(b)) + s@,
{
    b.put_slice(s)
}

/// The number of bytes held.
///
/// Trusted: calls `BytesMut::len`.
#[verifier::external_body]
fn bytes_mut_len(b: &bytes::BytesMut) -> (n: usize)
    ensures
        n == bytes_mut_contents(*b).len(),
{
    b.len()
}

/// The bytes held, as a slice.
///
/// Trusted: takes `&b[..]` through `BytesMut`'s `Deref` to `[u8]`.
#[verifier::external_body]
fn bytes_mut_slice(b: &bytes::BytesMut) -> (r: &[u8])
    ensures
        r@ == bytes_mut_contents(*b),
{
    &b[..]
}

/// How many bytes fit without reallocating.
///
/// Trusted: calls `BytesMut::capacity`; the contract claims only that the
/// capacity is at least the length. What the allocator gave is left unsaid.
#[verifier::external_body]
fn bytes_mut_capacity(b: &bytes::BytesMut) -> (c: usize)
    ensures
        c >= bytes_mut_contents(*b).len(),
{
    b.capacity()
}

/// A growable byte buffer with a read position.
pub struct BytesBuf {
    raw: bytes::BytesMut,
    cursor: usize,
}

impl BytesBuf {
    /// The bytes written.
    pub closed spec fn contents(&self) -> Seq<u8> {
        bytes_mut_contents(self.raw)
    }

    /// Where the next read starts.
    pub closed spec fn cursor(&self) -> usize {
        self.cursor
    }

    pub fn new() -> (b: Self)
        ensures
            b.contents() == Seq::<u8>::empty(),
            b.cursor() == 0,
    {
        BytesBuf { raw: bytes_mut_new(), cursor: 0 }
    }

    pub fn with_capacity(cap: usize) -> (b: Self)
        ensures
            b.contents() == Seq::<u8>::empty(),
            b.cursor() == 0,
    {
        BytesBuf { raw: bytes_mut_with_capacity(cap), cursor: 0 }
    }

    /// Moves the read position to `idx`, which must be the index of a byte.
    pub fn rseek(&mut self, idx: usize) -> (r: &mut Self)
        requires
            idx < old(self).contents().len(),
        ensures
            r.contents() == old(self).contents(),
            r.cursor() == idx,
            *final(self) == *final(r),
    {
        self.cursor = idx;
        self
    }

    /// Appends `buf`; always takes all of it.
    pub fn write(&mut self, buf: &[u8]) -> (n: usize)
        requires
            old(self).contents().len() + buf.len() <= isize::MAX,
        ensures
            final(self).contents() == old(self).contents() + buf@,
            final(self).cursor() == old(self).cursor(),
            n == buf.len(),
    {
        bytes_mut_put_slice(&mut self.raw, buf);
        buf.len()
    }

    /// Copies bytes from the read position into `buf`, as many as fit and
    /// remain, and moves the read position past them.
    pub fn read(&mut self, buf: &mut [u8]) -> (n: usize)
        ensures
            final(self).contents() == old(self).contents(),
            n == if old(buf)@.len() < 1 || old(self).cursor() >= old(self).contents().len() {
                0
            } else {
                let remain = old(self).contents().len() - old(self).cursor();
                if remain < old(buf)@.len() {
                    remain as usize
                } else {
                    old(buf)@.len() as usize
                }
            },
            final(self).cursor() == old(self).cursor() + n,
            final(buf)@.len() == old(buf)@.len(),
            n == 0 ==> final(buf)@ == old(buf)@,
            n > 0 ==> final(buf)@ == old(self).contents().subrange(
                old(self).cursor() as int,
                old(self).cursor() + n,
            ) + old(buf)@.skip(n as int),
    {
        let len = bytes_mut_len(&self.raw);
        if buf.len() < 1 || self.cursor >= len {
            return 0;
        }
        let remain = len - self.cursor;
        let rl = if remain < buf.len() {
            remain
        } else {
            buf.len()
        };
        let src = bytes_mut_slice(&self.raw);
        let ghost start = self.cursor;
        let ghost orig = buf@;
        let mut idx: usize = 0;
        while idx < rl
            invariant
                idx <= rl <= buf.len(),
                rl <= len - start,
                len == src@.len(),
                src@ == bytes_mut_contents(self.raw),
                self.cursor == start + idx,
                buf@.len() == orig.len(),
                forall|j: int| 0 <= j < idx ==> #[trigger] buf@[j] == src@[start + j],
                forall|j: int| idx <= j < buf@.len() ==> #[trigger] buf@[j] == orig[j],
            decreases rl - idx,
        {
            buf[idx] = src[self.cursor];
            idx += 1;
            self.cursor += 1;
        }
        assert(buf@ =~= src@.subrange(start as int, start + rl) + orig.skip(rl as int));
        rl
    }
}

// ---------------------------------------------------------------------------
// Codings
// ---------------------------------------------------------------------------
/// `data` compressed as gzip at the default level.
pub uninterp spec fn gzip_encoded(data: Seq<u8>) -> Seq<u8>;

/// `data` compressed as raw deflate at the default level.
pub uninterp spec fn deflate_encoded(data: Seq<u8>) -> Seq<u8>;

/// `data` compressed as brotli at quality 6.
pub uninterp spec fn brotli_encoded(data: Seq<u8>) -> Seq<u8>;

/// The bytes the first gzip member of `data` holds, or `None` when it is not gzip.
pub uninterp spec fn gzip_decoded(data: Seq<u8>) -> Option<Seq<u8>>;

/// The bytes raw deflate data `data` holds, or `None` when it is not deflate.
pub uninterp spec fn deflate_decoded(data: Seq<u8>) -> Option<Seq<u8>>;

/// The bytes brotli data `data` holds, or `None` when it is not brotli.
pub uninterp spec fn brotli_decoded(data: Seq<u8>) -> Option<Seq<u8>>;

/// Compresses `data` as gzip.
///
/// Trusted: writes `data` to a `flate2::write::GzEncoder` over a `Vec` with
/// `Compression::default()` and calls `finish`. The contract claims that
/// the output depends on `data` alone and that a gzip decoder gives `data`
/// back from it.
#[verifier::external_body]
fn gzip_encode(data: &[u8]) -> (r: Vec<u8>)
    ensures
        r@ == gzip_encoded(data@),
        gzip_decoded(r@) == Some(data@),
{
    let mut e = flate2::write::GzEncoder::new(Vec::new(), flate2::Compression::default());
    match e.write_all(data) {
        Ok(_) => {},
        Err(_) => {},
    }
    match e.finish() {
        Ok(v) => v,
        Err(_) => Vec::new(),
    }
}

/// Compresses `data` as raw deflate.
///
/// Trusted: writes `data` to a `flate2::write::DeflateEncoder` over a `Vec`
/// with `Compression::default()` and calls `finish`. The contract claims
/// that the output depends on `data` alone and that a deflate decoder gives
/// `data` back from it.
#[verifier::external_body]
fn deflate_encode(data: &[u8]) -> (r: Vec<u8>)
    ensures
        r@ == deflate_encoded(data@),
        deflate_decoded(r@) == Some(data@),
{
    let mut e = flate2::write::DeflateEncoder::new(Vec::new(), flate2::Compression::default());
    match e.write_all(data) {
        Ok(_) => {},
        Err(_) => {},
    }
    match e.finish() {
        Ok(v) => v,
        Err(_) => Vec::new(),
    }
}

/// Compresses `data` as brotli.
///
/// Trusted: writes `data` to a `brotli2::write::BrotliEncoder` over a `Vec`
/// at level 6 and calls `finish`. The contract claims that the output
/// depends on `data` alone and that a brotli decoder gives `data` back from
/// it.
#[verifier::external_body]
fn brotli_encode(data: &[u8]) -> (r: Vec<u8>)
    ensures
        r@ == brotli_encoded(data@),
        brotli_decoded(r@) == Some(data@),
{
    let mut e = brotli2::write::BrotliEncoder::new(Vec::new(), 6);
    match e.write_all(data) {
        Ok(_) => {},
        Err(_) => {},
    }
    match e.finish() {
        Ok(v) => v,
        Err(_) => Vec::new(),
    }
}

/// Decompresses gzip data.
///
/// Trusted: reads a `flate2::read::GzDecoder` over `data` to the end. The
/// contract claims that the outcome depends on `data` alone.
#[verifier::external_body]
fn gzip_decode(data: &[u8]) -> (r: Option<Vec<u8>>)
    ensures
        r matches Some(v) ==> gzip_decoded(data@) == Some(v@),
        r is None ==> gzip_decoded(data@) is None,
{
    let mut out = Vec::new();
    match flate2::read::GzDecoder::new(data).read_to_end(&mut out) {
        Ok(_) => Some(out),
        Err(_) => None,
    }
}

/// Decompresses raw deflate data.
///
/// Trusted: reads a `flate2::read::DeflateDecoder` over `data` to the end.
/// The contract claims that the outcome depends on `data` alone.
#[verifier::external_body]
fn deflate_decode(data: &[u8]) -> (r: Option<Vec<u8>>)
    ensures
        r matches Some(v) ==> deflate_decoded(data@) == Some(v@),
        r is None ==> deflate_decoded(data@) is None,
{
    let mut out = Vec::new();
    match flate2::read::DeflateDecoder::new(data).read_to_end(&mut out) {
        Ok(_) => Some(out),
        Err(_) => None,
    }
}

/// Decompresses brotli data.
///
/// Trusted: reads a `brotli2::read::BrotliDecoder` over `data` to the end.
/// The contract claims that the outcome depends on `data` alone.
#[verifier::external_body]
fn brotli_decode(data: &[u8]) -> (r: Option<Vec<u8>>)
    ensures
        r matches Some(v) ==> brotli_decoded(data@) == Some(v@),
        r is None ==> brotli_decoded(data@) is None,
{
    let mut out = Vec::new();
    match brotli2::read::BrotliDecoder::new(data).read_to_end(&mut out) {
        Ok(_) => Some(out),
        Err(_) => None,
    }
}

/// `data` compressed with the coding `ct`.
pub open spec fn encoded_with(ct: CompressionType, data: Seq<u8>) -> Seq<u8> {
    match ct {
        CompressionType::Gzip => gzip_encoded(data),
        CompressionType::Deflate => deflate_encoded(data),
        CompressionType::Br => brotli_encoded(data),
    }
}

/// `data` decompressed with the coding `ct`.
pub open spec fn decoded_with(ct: CompressionType, data: Seq<u8>) -> Option<Seq<u8>> {
    match ct {
        CompressionType::Gzip => gzip_decoded(data),
        CompressionType::Deflate => deflate_decoded(data),
        CompressionType::Br => brotli_decoded(data),
    }
}

/// Compresses `data` with the coding `ct`.
pub fn make_encoder(ct: CompressionType, data: &[u8]) -> (r: Vec<u8>)
    ensures
        r@ == encoded_with(ct, data@),
        decoded_with(ct, r@) == Some(data@),
{
    match ct {
        CompressionType::Gzip => gzip_encode(data),
        CompressionType::Deflate => deflate_encode(data),
        CompressionType::Br => brotli_encode(data),
    }
}

/// Decompresses `data` with the coding `ct`.
pub fn make_decoder(ct: CompressionType, data: &[u8]) -> (r: Option<Vec<u8>>)
    ensures
        r matches Some(v) ==> decoded_with(ct, data@) == Some(v@),
        r is None ==> decoded_with(ct, data@) is None,
{
    match ct {
        CompressionType::Gzip => gzip_decode(data),
        CompressionType::Deflate => deflate_decode(data),
        CompressionType::Br => brotli_decode(data),
    }
}

// ---------------------------------------------------------------------------
// Bodies
// ---------------------------------------------------------------------------
/// A message body. An outgoing body with a coding compresses what is
/// written: the input since the last flush is compressed into the buffer
/// when the body is flushed. An incoming body with a coding decompresses on
/// reading.
pub struct Body {
    buf: BytesBuf,
    _compression_type: Option<CompressionType>,
    _as_encoder: bool,
    encoding: bool,
    pending: Vec<u8>,
    decoded: Option<Vec<u8>>,
    dcursor: usize,
}

impl Body {
    /// The bytes in the buffer.
    pub closed spec fn contents(&self) -> Seq<u8> {
        self.buf.contents()
    }

    /// The buffer's read position.
    pub closed spec fn cursor(&self) -> usize {
        self.buf.cursor()
    }

    /// The coding, once set.
    pub closed spec fn coding(&self) -> Option<CompressionType> {
        self._compression_type
    }

    /// Whether the body is written (compressing) rather than read.
    pub closed spec fn outgoing(&self) -> bool {
        self._as_encoder
    }

    /// Whether an encoder is open: something was written with a coding
    /// since the last flush.
    pub closed spec fn encoding(&self) -> bool {
        self.encoding
    }

    /// The input the open encoder has taken.
    pub closed spec fn pending(&self) -> Seq<u8> {
        self.pending@
    }

    /// The decompressed bytes and how many of them were read, once decoding
    /// started.
    pub closed spec fn decoded(&self) -> Option<(Seq<u8>, usize)> {
        match self.decoded {
            Some(d) => Some((d@, self.dcursor)),
            None => None,
        }
    }

    pub closed spec fn wf(&self) -> bool {
        &&& !self.encoding ==> self.pending@.len() == 0
        &&& self.encoding ==> self._as_encoder && self._compression_type is Some
        &&& self.decoded matches Some(d) ==> self.dcursor <= d@.len()
        &&& self.buf.cursor() <= self.buf.contents().len()
    }

    fn new(cap: usize, is_outgoing: bool) -> (b: Self)
        ensures
            b.wf(),
            b.contents() == Seq::<u8>::empty(),
            b.cursor() == 0,
            b.coding() is None,
            b.outgoing() == is_outgoing,
            !b.encoding(),
            b.decoded() is None,
    {
        Body {
            buf: BytesBuf::with_capacity(cap),
            _compression_type: None,
            _as_encoder: is_outgoing,
            encoding: false,
            pending: Vec::new(),
            decoded: None,
            dcursor: 0,
        }
    }

    /// An empty body to read into.
    pub fn new_for_incoming(cap: usize) -> (b: Self)
        ensures
            b.wf(),
            b.contents() == Seq::<u8>::empty(),
            b.cursor() == 0,
            b.coding() is None,
            !b.outgoing(),
            !b.encoding(),
            b.decoded() is None,
    {
        Self::new(cap, false)
    }

    /// An empty body to write out.
    pub fn new_for_outgoing(cap: usize) -> (b: Self)
        ensures
            b.wf(),
            b.contents() == Seq::<u8>::empty(),
            b.cursor() == 0,
            b.coding() is None,
            b.outgoing(),
            !b.encoding(),
            b.decoded() is None,
    {
        Self::new(cap, true)
    }

    /// Sets the coding; it must not be set already.
    pub fn set_compression_type(&mut self, ct: CompressionType)
        requires
            old(self).wf(),
            old(self).coding() is None,
        ensures
            final(self).wf(),
            final(self).coding() == Some(ct),
            final(self).contents() == old(self).contents(),
            final(self).cursor() == old(self).cursor(),
            final(self).outgoing() == old(self).outgoing(),
            final(self).encoding() == old(self).encoding(),
            final(self).pending() == old(self).pending(),
            final(self).decoded() == old(self).decoded(),
    {
        self._compression_type = Some(ct);
    }

    pub fn get_compression_type(&self) -> (r: Option<CompressionType>)
        ensures
            r == self.coding(),
    {
        self._compression_type
    }

    /// The number of bytes in the buffer.
    pub fn len(&self) -> (n: usize)
        ensures
            n == self.contents().len(),
    {
        bytes_mut_len(&self.buf.raw)
    }

    pub fn is_empty(&self) -> (r: bool)
        ensures
            r == (self.contents().len() == 0),
    {
        bytes_mut_len(&self.buf.raw) == 0
    }

    /// How many bytes the buffer holds without growing; at least its length.
    pub fn capacity(&self) -> (c: usize)
        ensures
            c >= self.contents().len(),
    {
        bytes_mut_capacity(&self.buf.raw)
    }

    /// The bytes in the buffer.
    pub fn bytes(&self) -> (r: &[u8])
        ensures
            r@ == self.contents(),
    {
        bytes_mut_slice(&self.buf.raw)
    }

    /// Writes `buf`: into the open encoder of an outgoing body with a
    /// coding, straight into the buffer otherwise. Takes all of `buf`.
    pub fn write(&mut self, buf: &[u8]) -> (n: usize)
        requires
            old(self).wf(),
            old(self).contents().len() + buf.len() <= isize::MAX,
        ensures
            final(self).wf(),
            n == buf.len(),
            final(self).coding() == old(self).coding(),
            final(self).outgoing() == old(self).outgoing(),
            final(self).cursor() == old(self).cursor(),
            final(self).decoded() == old(self).decoded(),
            if old(self).outgoing() && old(self).coding() is Some {
                &&& final(self).encoding()
                &&& final(self).pending() == old(self).pending() + buf@
                &&& final(self).contents() == old(self).contents()
            } else {
                &&& final(self).encoding() == old(self).encoding()
                &&& final(self).pending() == old(self).pending()
                &&& final(self).contents() == old(self).contents() + buf@
            },
    {
        if self._as_encoder && self._compression_type.is_some() {
            self.encoding = true;
            let mut i: usize = 0;
            let ghost start = self.pending@;
            while i < buf.len()
                invariant
                    i <= buf.len(),
                    self.pending@ == start + buf@.take(i as int),
                    self.encoding,
                    self.buf == old(self).buf,
                    self._compression_type == old(self)._compression_type,
                    self._compression_type is Some,
                    self._as_encoder == old(self)._as_encoder,
                    self._as_encoder,
                    self.decoded == old(self).decoded,
                    self.dcursor == old(self).dcursor,
                decreases buf.len() - i,
            {
                self.pending.push(buf[i]);
                assert(buf@.take(i + 1) =~= buf@.take(i as int).push(buf@[i as int]));
                i += 1;
            }
            assert(buf@.take(buf.len() as int) =~= buf@);
            buf.len()
        } else {
            self.buf.write(buf)
        }
    }

    /// Closes the open encoder, if any: what it took is compressed into the
    /// buffer.
    pub fn flush(&mut self)
        requires
            old(self).wf(),
            old(self).encoding() ==> old(self).contents().len() + encoded_with(
                old(self).coding().unwrap(),
                old(self).pending(),
            ).len() <= isize::MAX,
        ensures
            final(self).wf(),
            !final(self).encoding(),
            final(self).coding() == old(self).coding(),
            final(self).outgoing() == old(self).outgoing(),
            final(self).cursor() == old(self).cursor(),
            final(self).decoded() == old(self).decoded(),
            final(self).contents() == if old(self).encoding() {
                old(self).contents() + encoded_with(old(self).coding().unwrap(), old(self).pending())
            } else {
                old(self).contents()
            },
            old(self).encoding() ==> decoded_with(
                old(self).coding().unwrap(),
                final(self).contents().skip(old(self).contents().len() as int),
            ) == Some(old(self).pending()),
    {
        if self.encoding {
            match self._compression_type {
                Some(ct) => {
                    let out = make_encoder(ct, self.pending.as_slice());
                    let ghost before = self.buf.contents();
                    self.buf.write(out.as_slice());
                    assert(self.buf.contents().skip(before.len() as int) =~= out@);
                },
                None => {},
            }
            self.pending = Vec::new();
            self.encoding = false;
        }
    }

    /// Reads into `out`: for an incoming body with a coding, the bytes the
    /// buffer decompresses to (all of the buffer from the read position is
    /// decompressed on the first read; `Err` when that fails); otherwise
    /// the buffer's own bytes.
    pub fn read(&mut self, out: &mut [u8]) -> (r: Result<usize, ()>)
        requires
            old(self).wf(),
        ensures
            final(self).wf(),
            final(self).contents() == old(self).contents(),
            final(self).coding() == old(self).coding(),
            final(self).outgoing() == old(self).outgoing(),
            final(out)@.len() == old(out)@.len(),
            !old(self).outgoing() && old(self).coding() is Some ==> {
                let d = match old(self).decoded() {
                    Some(p) => Some(p),
                    None => match decoded_with(
                        old(self).coding().unwrap(),
                        old(self).contents().skip(old(self).cursor() as int),
                    ) {
                        Some(s) => Some((s, 0usize)),
                        None => None,
                    },
                };
                match d {
                    None => r is Err && final(self).decoded() is None && final(out)@ == old(out)@,
                    Some((s, c)) => {
                        let n = if s.len() - c < old(out)@.len() {
                            (s.len() - c) as usize
                        } else {
                            old(out)@.len() as usize
                        };
                        &&& r == Ok::<usize, ()>(n)
                        &&& final(self).decoded() == Some((s, (c + n) as usize))
                        &&& final(out)@ == s.subrange(c as int, c + n) + old(out)@.skip(n as int)
                    },
                }
            },
            !(!old(self).outgoing() && old(self).coding() is Some) ==> {
                &&& r is Ok
                &&& final(self).decoded() == old(self).decoded()
                &&& r matches Ok(n) && {
                    &&& n == if old(out)@.len() < 1 || old(self).cursor() >= old(
                        self,
                    ).contents().len() {
                        0
                    } else {
                        let remain = old(self).contents().len() - old(self).cursor();
                        if remain < old(out)@.len() {
                            remain as usize
                        } else {
                            old(out)@.len() as usize
                        }
                    }
                    &&& final(self).cursor() == old(self).cursor() + n
                    &&& n == 0 ==> final(out)@ == old(out)@
                    &&& n > 0 ==> final(out)@ == old(self).contents().subrange(
                        old(self).cursor() as int,
                        old(self).cursor() + n,
                    ) + old(out)@.skip(n as int)
                }
            },
    {
        if !self._as_encoder && self._compression_type.is_some() {
            if self.decoded.is_none() {
                let ct = match self._compression_type {
                    Some(ct) => ct,
                    None => CompressionType::Gzip,
                };
                let all = bytes_mut_slice(&self.buf.raw);
                let start = self.buf.cursor;
                let mut rest: Vec<u8> = Vec::new();
                let mut i: usize = start;
                assert(rest@ =~= all@.subrange(start as int, start as int));
                while i < all.len()
                    invariant
                        start <= i <= all.len(),
                        rest@ == all@.subrange(start as int, i as int),
                    decreases all.len() - i,
                {
                    rest.push(all[i]);
                    assert(all@.subrange(start as int, i + 1) =~= all@.subrange(
                        start as int,
                        i as int,
                    ).push(all@[i as int]));
                    i += 1;
                }
                assert(rest@ =~= all@.skip(start as int));
                match make_decoder(ct, rest.as_slice()) {
                    None => {
                        return Err(());
                    },
                    Some(d) => {
                        self.decoded = Some(d);
                        self.dcursor = 0;
                    },
                }
            }
            let mut n: usize = 0;
            match &self.decoded {
                Some(d) => {
                    let remain = d.len() - self.dcursor;
                    n = if remain < out.len() {
                        remain
                    } else {
                        out.len()
                    };
                    let ghost orig = out@;
                    let c = self.dcursor;
                    let mut idx: usize = 0;
                    while idx < n
                        invariant
                            idx <= n <= out.len(),
                            c + n <= d.len(),
                            out@.len() == orig.len(),
                            forall|j: int| 0 <= j < idx ==> #[trigger] out@[j] == d@[c + j],
                            forall|j: int| idx <= j < out@.len() ==> #[trigger] out@[j] == orig[j],
                        decreases n - idx,
                    {
                        out[idx] = d[c + idx];
                        idx += 1;
                    }
                    assert(out@ =~= d@.subrange(c as int, c + n) + orig.skip(n as int));
                },
                None => {},
            }
            self.dcursor = self.dcursor + n;
            Ok(n)
        } else {
            Ok(self.buf.read(out))
        }
    }
}

} // verus!
