//! Messages of a WebSocket connection.
use vstd::prelude::*;

verus! {

/// A WebSocket message.
pub enum WebSocketMessage {
    Text(String),
    Binary(Vec<u8>),
    Ping,
    Pong,
    Close,
    Continuation,
}

} // verus!
