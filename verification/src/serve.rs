//! What a connection does after each message.
use vstd::prelude::*;

use crate::message::MessageReadCode;
use crate::protocols::Protocol;

verus! {

/// What the connection does next.
#[derive(Debug, Clone, Copy, PartialEq, Eq, Structural)]
pub enum ConnAction {
    /// Read the next request.
    Continue,
    /// Close the connection.
    Close,
    /// Hand the connection to the WebSocket handler.
    WebSocket,
    /// Hand the connection to the HTTP/2 handler.
    Http2,
}

/// After the response was written: go on as the service said; HTTP/1.x goes
/// on only with keep-alive.
pub fn after_response(p: Protocol) -> (a: ConnAction)
    ensures
        a == match p {
            Protocol::Current { keep_alive } => if keep_alive {
                ConnAction::Continue
            } else {
                ConnAction::Close
            },
            Protocol::WebSocket => ConnAction::WebSocket,
            Protocol::Http2 => ConnAction::Http2,
        },
{
    match p {
        Protocol::Current { keep_alive } => if keep_alive {
            ConnAction::Continue
        } else {
            ConnAction::Close
        },
        Protocol::WebSocket => ConnAction::WebSocket,
        Protocol::Http2 => ConnAction::Http2,
    }
}

/// Whether reading a request part ended well enough to go on.
pub fn read_succeeded(code: MessageReadCode) -> (r: bool)
    ensures
        r == (code == MessageReadCode::Success),
{
    match code {
        MessageReadCode::Success => true,
        _ => false,
    }
}

/// What to do with a connection just accepted, or one that waits.
#[derive(Debug, Clone, Copy, PartialEq, Eq, Structural)]
pub enum Admission {
    /// Drop the connection unanswered.
    Refuse,
    /// Count it among the waiting ones and wait for a free place.
    Wait,
    /// Serve it.
    Serve,
}

/// The decision on an accepted connection while `alive` connections are
/// served and `waiting` wait: with a limit on live connections, refuse it
/// when more than `max_waiting` wait (a limit of 0 or less means none), and
/// make it wait when the live ones have reached `max_alive`; else serve it.
pub open spec fn admission_of(alive: i64, waiting: i64, max_alive: i64, max_waiting: i64) -> Admission {
    if max_alive > 0 {
        if max_waiting > 0 && waiting > max_waiting {
            Admission::Refuse
        } else if alive >= max_alive {
            Admission::Wait
        } else {
            Admission::Serve
        }
    } else {
        Admission::Serve
    }
}

/// Decides on an accepted connection; see [`admission_of`].
pub fn decide_admission(alive: i64, waiting: i64, max_alive: i64, max_waiting: i64) -> (a: Admission)
    ensures
        a == admission_of(alive, waiting, max_alive, max_waiting),
{
    if max_alive > 0 {
        if max_waiting > 0 && waiting > max_waiting {
            return Admission::Refuse;
        }
        if alive >= max_alive {
            return Admission::Wait;
        }
    }
    Admission::Serve
}

/// The decision at each check of a waiting connection, after `rounds`
/// rounds of waiting: once a round was waited, refuse when `max_rounds`
/// rounds are reached; else wait another round while more than `max_alive`
/// connections are alive; else serve it (if it is still open).
pub open spec fn wait_step_of(alive: i64, max_alive: i64, rounds: i64, max_rounds: i64) -> Admission {
    if rounds > 0 && rounds >= max_rounds {
        Admission::Refuse
    } else if alive > max_alive {
        Admission::Wait
    } else {
        Admission::Serve
    }
}

/// Decides on a waiting connection; see [`wait_step_of`].
pub fn after_wait(alive: i64, max_alive: i64, rounds: i64, max_rounds: i64) -> (s: Admission)
    ensures
        s == wait_step_of(alive, max_alive, rounds, max_rounds),
{
    if rounds > 0 && rounds >= max_rounds {
        Admission::Refuse
    } else if alive > max_alive {
        Admission::Wait
    } else {
        Admission::Serve
    }
}

/// Whether a server that is shutting down may stop: no connection is alive.
pub fn may_shut_down(alive: i64) -> (r: bool)
    ensures
        r == (alive < 1),
{
    alive < 1
}

} // verus!
