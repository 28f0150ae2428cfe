//! Filling in a response message.
use vstd::prelude::*;
use vstd::string::StringExecFns;

use crate::message::Message;
use crate::text::{decimal, usize_to_string};
use crate::uitls::multi_map::{appended, deleted};

verus! {

/// `format!("HTTP/{}.{}", major, minor)`.
pub open spec fn version_text(major: u8, minor: u8) -> Seq<char> {
    "HTTP/"@ + decimal(major as nat) + "."@ + decimal(minor as nat)
}

/// Appends `HTTP/<major>.<minor>` to `s`.
pub fn push_version(s: &mut String, major: u8, minor: u8)
    ensures
        final(s)@ == old(s)@ + version_text(major, minor),
{
    s.append("HTTP/");
    let a = usize_to_string(major as usize);
    s.append(a.as_str());
    s.append(".");
    let b = usize_to_string(minor as usize);
    s.append(b.as_str());
}

/// Writes the first line and headers of a response, one call at a time.
pub struct ResponseWriter {
    msg: Message,
}

impl ResponseWriter {
    /// The message being written.
    pub closed spec fn message(&self) -> Message {
        self.msg
    }

    pub fn from(value: Message) -> (w: Self)
        ensures
            w.message() == value,
    {
        ResponseWriter { msg: value }
    }

    /// Appends `HTTP/<major>.<minor>` to the first word.
    pub fn version(&mut self, major: u8, minor: u8) -> (r: &mut Self)
        ensures
            r.message().firstline.0@ == old(self).message().firstline.0@ + version_text(
                major,
                minor,
            ),
            r.message().firstline.1 == old(self).message().firstline.1,
            r.message().firstline.2 == old(self).message().firstline.2,
            r.message().headers == old(self).message().headers,
            r.message().body == old(self).message().body,
            *final(self) == *final(r),
    {
        push_version(&mut self.msg.firstline.0, major, minor);
        self
    }

    /// Appends the status code to the second word and the reason to the third.
    pub fn code(&mut self, code: u16, reason: &str) -> (r: &mut Self)
        ensures
            r.message().firstline.0 == old(self).message().firstline.0,
            r.message().firstline.1@ == old(self).message().firstline.1@ + decimal(code as nat),
            r.message().firstline.2@ == old(self).message().firstline.2@ + reason@,
            r.message().headers == old(self).message().headers,
            r.message().body == old(self).message().body,
            *final(self) == *final(r),
    {
        let c = usize_to_string(code as usize);
        self.msg.firstline.1.append(c.as_str());
        self.msg.firstline.2.append(reason);
        self
    }

    /// Adds the header field `k: v`.
    pub fn header(&mut self, k: &str, v: &str) -> (r: &mut Self)
        requires
            old(self).message().headers.wf(),
        ensures
            r.message().firstline == old(self).message().firstline,
            appended(old(self).message().headers, r.message().headers, k@, v@),
            r.message().body == old(self).message().body,
            *final(self) == *final(r),
    {
        self.msg.headers.append(k, v);
        self
    }

    /// Removes the header `k`.
    pub fn delheader(&mut self, k: &str) -> (r: &mut Self)
        requires
            old(self).message().headers.wf(),
        ensures
            r.message().firstline == old(self).message().firstline,
            deleted(old(self).message().headers, r.message().headers, k@),
            r.message().body == old(self).message().body,
            *final(self) == *final(r),
    {
        self.msg.headers.delete(k);
        self
    }

    /// The message written.
    pub fn end(self) -> (m: Message)
        ensures
            m == self.message(),
    {
        self.msg
    }
}

} // verus!
