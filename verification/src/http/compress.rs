//! Compression codings that a response body may be sent with.
use vstd::prelude::*;

verus! {

/// A `Content-Encoding` this server produces.
#[derive(Debug, Copy, Clone, PartialEq, Eq, Structural)]
pub enum CompressType {
    Gzip,
    Deflate,
}

} // verus!
