//! What a connection speaks after a response.
use vstd::prelude::*;

verus! {

/// The protocol a connection continues with.
#[derive(Debug, Clone, Copy, PartialEq, Eq, Structural)]
pub enum Protocol {
    /// HTTP/1.x again, if `keep_alive`.
    Current { keep_alive: bool },
    WebSocket,
    Http2,
}

} // verus!
