//! Decisions an HTTP/1.1 connection takes between messages.
use vstd::prelude::*;
use vstd::string::StringSliceAdditionalSpecFns;

use crate::text::{chars_of, ends_with};

verus! {

/// Whether a connection may stay open after a request of version `v`
/// (`HTTP/x.y`): not when the digit after `HTTP/` is `0`; otherwise exactly
/// when the version ends in `.0`.
pub open spec fn keeps_alive(v: &str) -> bool {
    v.spec_bytes()[5] != 48u8 && ends_with(v@, ".0"@)
}

/// See [`keeps_alive`]; the version must have at least six bytes.
pub fn can_keep_alive(v: &str) -> (r: bool)
    requires
        v.spec_bytes().len() >= 6,
    ensures
        r == keeps_alive(v),
{
    let major = v.as_bytes()[5];
    if major == 48u8 {
        return false;
    }
    let c = chars_of(v);
    let n = c.len();
    let r = n >= 2 && c[n - 2] == '.' && c[n - 1] == '0';
    proof {
        reveal_strlit(".0");
        let lit = ".0"@;
        assert(lit.len() == 2 && lit[0] == '.' && lit[1] == '0');
        if n >= 2 {
            let t = v@.subrange(n - 2, n as int);
            assert(t[0] == c@[n - 2] && t[1] == c@[n - 1]);
            if t == lit {
                assert(t[0] == '.' && t[1] == '0');
            }
            if c@[n - 2] == '.' && c@[n - 1] == '0' {
                assert(t =~= lit);
            }
        }
    }
    r
}

/// Whether the connection goes on after a response: the request's version
/// allows it (see [`keeps_alive`]) and the response's `connection` header is
/// not `close`.
pub fn keep_connection(req_version: &str, resp_connection: Option<&String>) -> (r: bool)
    requires
        req_version.spec_bytes().len() >= 6,
    ensures
        r == (keeps_alive(req_version) && !(resp_connection matches Some(c) && c@ == "close"@)),
{
    if !can_keep_alive(req_version) {
        return false;
    }
    match resp_connection {
        Some(cv) => {
            let a = chars_of(cv.as_str());
            let b = chars_of("close");
            !crate::text::chars_eq(a.as_slice(), b.as_slice())
        },
        None => true,
    }
}

/// Whether line `index` (0, 1 or 2) of the HTTP/2 connection preface, as
/// read, is right: two bytes, then four starting with `SM`, then two.
pub open spec fn preface_line_ok(index: usize, line: &str) -> bool {
    let b = line.spec_bytes();
    if index == 1 {
        b.len() == 4 && b[0] == 83u8 && b[1] == 77u8
    } else {
        b.len() == 2
    }
}

/// See [`preface_line_ok`]. The second line must be cut after its second
/// byte, so a four-byte line must have a character boundary there.
pub fn check_preface_line(index: usize, line: &str) -> (r: bool)
    requires
        index == 1 && line.spec_bytes().len() == 4 ==> vstd::utf8::is_char_boundary(
            line.spec_bytes(),
            2,
        ),
    ensures
        r == preface_line_ok(index, line),
{
    let b = line.as_bytes();
    if index == 1 {
        b.len() == 4 && b[0] == 83u8 && b[1] == 77u8
    } else {
        b.len() == 2
    }
}

} // verus!
