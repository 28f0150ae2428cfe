//! Building a response message.
use vstd::prelude::*;
use vstd::string::StringExecFns;

use crate::message::Message;
use crate::respw::{push_version, version_text};
use crate::text::{decimal, usize_to_string};
use crate::uitls::multi_map::appended;

verus! {

/// A response being sent.
pub struct Response {
    pub msg: Message,
}

impl Response {
    pub fn new() -> (r: Self)
        ensures
            r.msg.firstline.0@ == Seq::<char>::empty(),
            r.msg.firstline.1@ == Seq::<char>::empty(),
            r.msg.firstline.2@ == Seq::<char>::empty(),
            r.msg.headers.wf(),
            !r.msg.headers.is_map(),
            r.msg.headers.pairs().len() == 0,
            r.msg.body@ == Seq::<u8>::empty(),
    {
        Response { msg: Message::default() }
    }
}

/// Builds a response message: code and reason go into the first two words
/// of the first line, the version into the third.
pub struct ResponseBuilder {
    inner: Message,
}

impl ResponseBuilder {
    /// The message built so far.
    pub closed spec fn message(&self) -> Message {
        self.inner
    }

    pub fn new() -> (b: Self)
        ensures
            b.message().firstline.0@ == Seq::<char>::empty(),
            b.message().firstline.1@ == Seq::<char>::empty(),
            b.message().firstline.2@ == Seq::<char>::empty(),
            b.message().headers.wf(),
            !b.message().headers.is_map(),
            b.message().headers.pairs().len() == 0,
            b.message().body@ == Seq::<u8>::empty(),
    {
        ResponseBuilder { inner: Message::default() }
    }

    /// The message built.
    pub fn finish(self) -> (m: Message)
        ensures
            m == self.message(),
    {
        self.inner
    }

    /// Appends the code to the first word and the reason to the second.
    pub fn with_code(&mut self, code: u32, reason: &str) -> (r: &mut Self)
        ensures
            r.message().firstline.0@ == old(self).message().firstline.0@ + decimal(code as nat),
            r.message().firstline.1@ == old(self).message().firstline.1@ + reason@,
            r.message().firstline.2 == old(self).message().firstline.2,
            r.message().headers == old(self).message().headers,
            r.message().body == old(self).message().body,
            *final(self) == *final(r),
    {
        let c = usize_to_string(code as usize);
        self.inner.firstline.0.append(c.as_str());
        self.inner.firstline.1.append(reason);
        self
    }

    /// Appends `HTTP/<major>.<minor>` to the third word.
    pub fn with_version(&mut self, major: u8, minor: u8) -> (r: &mut Self)
        ensures
            r.message().firstline.0 == old(self).message().firstline.0,
            r.message().firstline.1 == old(self).message().firstline.1,
            r.message().firstline.2@ == old(self).message().firstline.2@ + version_text(
                major,
                minor,
            ),
            r.message().headers == old(self).message().headers,
            r.message().body == old(self).message().body,
            *final(self) == *final(r),
    {
        push_version(&mut self.inner.firstline.2, major, minor);
        self
    }

    /// Adds the header field `k: v`.
    pub fn append_header(&mut self, k: &str, v: &str) -> (r: &mut Self)
        requires
            old(self).message().headers.wf(),
        ensures
            r.message().firstline == old(self).message().firstline,
            appended(old(self).message().headers, r.message().headers, k@, v@),
            r.message().body == old(self).message().body,
            *final(self) == *final(r),
    {
        self.inner.headers.append(k, v);
        self
    }
}

} // verus!
