//! The WebSocket opening handshake.
use base64::Engine as _;
use sha1::Digest as _;
use vstd::prelude::*;
use vstd::string::StringSliceAdditionalSpecFns;
use vstd::utf8::encode_utf8;

use crate::message::first_value;
use crate::request::RequestQueryer;
use crate::respw::{version_text, ResponseWriter};
use crate::text::decimal;
use crate::uitls::multi_map::after_append;

verus! {

/// The data frame opcodes.
#[derive(Debug, Clone, Copy, PartialEq, Eq, PartialOrd, Ord)]
pub enum WsOpCode {
    Text,
    Binary,
    Ping,
    Pong,
}

impl WsOpCode {
    /// The opcode's number on the wire.
    pub fn code(self) -> (c: u8)
        ensures
            c == match self {
                WsOpCode::Text => 1u8,
                WsOpCode::Binary => 2u8,
                WsOpCode::Ping => 9u8,
                WsOpCode::Pong => 10u8,
            },
    {
        match self {
            WsOpCode::Text => 1,
            WsOpCode::Binary => 2,
            WsOpCode::Ping => 9,
            WsOpCode::Pong => 10,
        }
    }
}

/// The control opcodes that carry no data of their own kind.
#[derive(Debug, Clone, Copy, PartialEq, Eq, PartialOrd, Ord)]
pub enum ExtOpCode {
    Continuation,
    Close,
}

impl ExtOpCode {
    /// The opcode's number on the wire.
    pub fn code(self) -> (c: u8)
        ensures
            c == match self {
                ExtOpCode::Continuation => 0u8,
                ExtOpCode::Close => 8u8,
            },
    {
        match self {
            ExtOpCode::Continuation => 0,
            ExtOpCode::Close => 8,
        }
    }
}

/// The SHA-1 digest of `data`.
pub uninterp spec fn sha1_of(data: Seq<u8>) -> Seq<u8>;

/// `data` in standard base64 with padding.
pub uninterp spec fn base64_standard(data: Seq<u8>) -> Seq<char>;

/// The SHA-1 digest of `data`.
///
/// Trusted: calls `<sha1::Sha1 as Digest>::digest`. The contract claims
/// that the 20 bytes returned depend on `data` alone.
#[verifier::external_body]
fn sha1_digest(data: &[u8]) -> (r: Vec<u8>)
    ensures
        r@ == sha1_of(data@),
        r@.len() == 20,
{
    sha1::Sha1::digest(data).to_vec()
}

/// `data` in standard base64 with padding.
///
/// Trusted: calls `Engine::encode` on `base64::engine::general_purpose::STANDARD`.
/// The contract claims that the text returned depends on `data` alone; the
/// call panics when the length of the output overflows `usize`, which the
/// `requires` rules out.
#[verifier::external_body]
fn base64_encode(data: &[u8]) -> (r: String)
    requires
        data.len() / 3 * 4 + 4 <= usize::MAX,
    ensures
        r@ == base64_standard(data@),
{
    base64::engine::general_purpose::STANDARD.encode(data)
}

/// The GUID that RFC 6455 appends to the client's key.
pub open spec fn websocket_magic() -> Seq<char> {
    "258EAFA5-E914-47DA-95CA-C5AB0DC85B11"@
}

/// The `sec-websocket-accept` value for a `sec-websocket-key`: the base64
/// text of the SHA-1 digest of the key followed by the GUID.
pub open spec fn accept_value(key: Seq<char>) -> Seq<char> {
    base64_standard(sha1_of(encode_utf8(key) + encode_utf8(websocket_magic())))
}

/// The `sec-websocket-accept` value for `key`; see [`accept_value`].
pub fn accept_key(key: &str) -> (r: String)
    ensures
        r@ == accept_value(key@),
{
    let magic = "258EAFA5-E914-47DA-95CA-C5AB0DC85B11";
    let kb = key.as_bytes();
    let mb = magic.as_bytes();
    let mut data: Vec<u8> = Vec::new();
    let mut i: usize = 0;
    while i < kb.len()
        invariant
            i <= kb.len(),
            data@ == kb@.take(i as int),
        decreases kb.len() - i,
    {
        data.push(kb[i]);
        assert(kb@.take(i + 1) =~= kb@.take(i as int).push(kb@[i as int]));
        i += 1;
    }
    let mut j: usize = 0;
    while j < mb.len()
        invariant
            j <= mb.len(),
            data@ == kb@ + mb@.take(j as int),
        decreases mb.len() - j,
    {
        data.push(mb[j]);
        assert(mb@.take(j + 1) =~= mb@.take(j as int).push(mb@[j as int]));
        j += 1;
    }
    assert(kb@.take(kb.len() as int) =~= kb@);
    assert(mb@.take(mb.len() as int) =~= mb@);
    let digest = sha1_digest(data.as_slice());
    base64_encode(digest.as_slice())
}

/// Answers a WebSocket upgrade request. Without a non-empty
/// `sec-websocket-key` nothing is written and the result is `Ok(false)`;
/// otherwise the response gets the accept header, the version `HTTP/1.1`,
/// code 101 and the upgrade headers, and the result is `Ok(true)`.
pub fn upgrade(req: &mut RequestQueryer, resp: &mut ResponseWriter) -> (r: Result<bool, ()>)
    requires
        old(req).message().headers.wf(),
        old(resp).message().headers.wf(),
    ensures
        *final(req) == *old(req),
        match first_value(old(req).message().headers, "sec-websocket-key"@) {
            Some(key) if key.len() > 0 => {
                let m0 = old(resp).message();
                let m1 = final(resp).message();
                &&& r == Ok::<bool, ()>(true)
                &&& m1.firstline.0@ == m0.firstline.0@ + version_text(1, 1)
                &&& m1.firstline.1@ == m0.firstline.1@ + decimal(101)
                &&& m1.firstline.2@ == m0.firstline.2@ + "Switching Protocols"@
                &&& m1.headers.wf()
                &&& m1.headers.state() == after_append(
                    after_append(
                        after_append(
                            after_append(m0.headers.state(), "sec-websocket-accept"@, accept_value(key)),
                            "sec-websocket-version"@,
                            "13"@,
                        ),
                        "upgrade"@,
                        "websocket"@,
                    ),
                    "connection"@,
                    "Upgrade"@,
                )
                &&& m1.body == m0.body
            },
            _ => r == Ok::<bool, ()>(false) && *final(resp) == *old(resp),
        },
{
    match req.headers().get("sec-websocket-key") {
        Some(key) => {
            if key.as_str().is_empty() {
                return Ok(false);
            }
            let accept = accept_key(key.as_str());
            resp.header("sec-websocket-accept", accept.as_str());
        },
        None => {
            return Ok(false);
        },
    }
    resp.version(1, 1);
    resp.code(101, "Switching Protocols");
    resp.header("sec-websocket-version", "13");
    resp.header("upgrade", "websocket");
    resp.header("connection", "Upgrade");
    Ok(true)
}

} // verus!
