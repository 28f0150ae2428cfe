//! Read-only access to the parts of a request message.
use vstd::prelude::*;

use crate::message::{Message, MessageBody};
use crate::uitls::multi_map::MultiMap;

verus! {

/// Answers questions about a request.
pub struct RequestQueryer<'a> {
    msg: &'a Message,
}

impl<'a> RequestQueryer<'a> {
    /// The message asked about.
    pub closed spec fn message(&self) -> &'a Message {
        self.msg
    }

    pub fn new(msg: &'a Message) -> (q: Self)
        ensures
            q.message() == msg,
    {
        RequestQueryer { msg }
    }

    /// The method word.
    pub fn method(&self) -> (r: &String)
        ensures
            r == &self.message().firstline.0,
    {
        &self.msg.firstline.0
    }

    /// The target word.
    pub fn url(&self) -> (r: &String)
        ensures
            r == &self.message().firstline.1,
    {
        &self.msg.firstline.1
    }

    /// The version word.
    pub fn version(&self) -> (r: &String)
        ensures
            r == &self.message().firstline.2,
    {
        &self.msg.firstline.2
    }

    /// The header fields.
    pub fn headers(&self) -> (r: &MultiMap)
        ensures
            r == &self.message().headers,
    {
        &self.msg.headers
    }

    /// The body.
    pub fn body(&self) -> (r: &MessageBody)
        ensures
            r == &self.message().body,
    {
        &self.msg.body
    }
}

} // verus!
