//! A service that answers every request with `Hello world!`.
use vstd::prelude::*;
use vstd::string::StringSliceAdditionalSpecFns;

use crate::message::Message;
use crate::protocols::Protocol;
use crate::reqr::{version_of, RequestReader};
use crate::respw::{version_text, ResponseWriter};
use crate::text::decimal;
use crate::uitls::multi_map::after_append;

verus! {

/// Answers every request with `Hello world!`.
pub struct HelloWorldService<C: 'static>(&'static C);

/// Whether the connection stays open after answering a request of the
/// given version: when the version does not parse, or both its numbers are
/// at least 1.
pub open spec fn hello_keep_alive(v: Result<(u8, u8), ()>) -> bool {
    match v {
        Ok((major, minor)) => major >= 1 && minor >= 1,
        Err(_) => true,
    }
}

impl<C: 'static> HelloWorldService<C> {
    /// The configuration the service was made with.
    pub closed spec fn cfg(&self) -> &'static C {
        self.0
    }

    pub fn new(cfg: &'static C) -> (s: Self)
        ensures
            s.cfg() == cfg,
    {
        HelloWorldService(cfg)
    }

    /// The configuration the service was made with.
    pub fn config(&self) -> (c: &'static C)
        ensures
            c == self.cfg(),
    {
        self.0
    }

    /// Answers `req` in `resp`: `HTTP/1.1`, and after it the request's
    /// version when it parses, code `200 OK`, the header `server:
    /// httpd.rs` and the body `Hello world!`.
    pub fn http(&self, req: &Message, resp: &mut Message) -> (p: Protocol)
        requires
            old(resp).headers.wf(),
        ensures
            final(resp).firstline.0@ == old(resp).firstline.0@ + version_text(1, 1) + match version_of(
                req.firstline.2@,
            ) {
                Ok((major, minor)) => version_text(major, minor),
                Err(_) => Seq::<char>::empty(),
            },
            final(resp).firstline.1@ == old(resp).firstline.1@ + decimal(200),
            final(resp).firstline.2@ == old(resp).firstline.2@ + "OK"@,
            final(resp).headers.wf(),
            final(resp).headers.state() == after_append(
                old(resp).headers.state(),
                "server"@,
                "httpd.rs"@,
            ),
            final(resp).body@ == old(resp).body@ + "Hello world!".spec_bytes(),
            p == (Protocol::Current { keep_alive: hello_keep_alive(version_of(req.firstline.2@)) }),
    {
        let reqversion = RequestReader::from(req).version();
        let mut keep_alive = true;
        let mut m = Message::default();
        std::mem::swap(&mut m, resp);
        let mut w = ResponseWriter::from(m);
        w.version(1, 1);
        w.code(200, "OK");
        w.header("server", "httpd.rs");
        match reqversion {
            Ok((major, minor)) => {
                w.version(major, minor);
                keep_alive = major >= 1 && minor >= 1;
            },
            Err(_) => {},
        }
        let mut done = w.end();
        done.body.write("Hello world!".as_bytes());
        std::mem::swap(&mut done, resp);
        Protocol::Current { keep_alive }
    }
}

} // verus!
