//! Read-only views of a request message.
use vstd::prelude::*;

use crate::message::{Message, MessageBody};
use crate::text::{
    ascii_lower, chars_eq, chars_of, parse_uint, parse_uint_spec, string_from_range,
    to_ascii_lowercase,
};
use crate::uitls::multi_map::MultiMap;

verus! {

/// The position of the first `c` in `s` at or after `i`.
pub open spec fn first_char(s: Seq<char>, c: char, i: int) -> Option<int>
    decreases s.len() - i,
{
    if i < 0 || i >= s.len() {
        None
    } else if s[i] == c {
        Some(i)
    } else {
        first_char(s, c, i + 1)
    }
}

pub proof fn lemma_first_char(s: Seq<char>, c: char, i: int)
    requires
        0 <= i,
    ensures
        first_char(s, c, i) matches Some(j) ==> i <= j < s.len() && s[j] == c && forall|k: int|
            i <= k < j ==> s[k] != c,
        first_char(s, c, i) is None ==> forall|k: int| i <= k < s.len() ==> s[k] != c,
    decreases s.len() - i,
{
    if i < s.len() && s[i] != c {
        lemma_first_char(s, c, i + 1);
    }
}

/// `str::find` for one character.
pub fn find_char(v: &[char], c: char) -> (r: Option<usize>)
    ensures
        match r {
            Some(i) => first_char(v@, c, 0) == Some(i as int),
            None => first_char(v@, c, 0) is None,
        },
{
    let mut i: usize = 0;
    while i < v.len()
        invariant
            i <= v.len(),
            first_char(v@, c, 0) == first_char(v@, c, i as int),
        decreases v.len() - i,
    {
        if v[i] == c {
            return Some(i);
        }
        i += 1;
    }
    None
}

/// The version a request line states, as `RequestReader::version` reads
/// it: `http` (in any case) before the first `/`, then the number before
/// the first `.` after it, as a `u8`. Both parts of the result are that
/// number: the minor version is read from the same text as the major.
pub open spec fn version_of(s: Seq<char>) -> Result<(u8, u8), ()> {
    match first_char(s, '/', 0) {
        None => Err(()),
        Some(i) => if ascii_lower(s.take(i)) != "http"@ {
            Err(())
        } else {
            let versions = s.skip(i + 1);
            match first_char(versions, '.', 0) {
                None => Err(()),
                Some(j) => match parse_uint_spec(versions.take(j), 255) {
                    Err(_) => Err(()),
                    Ok(major) => Ok((major as u8, major as u8)),
                },
            }
        },
    }
}

/// A view of a request for handlers.
pub struct RequestReader<'a> {
    msg: &'a Message,
}

impl<'a> RequestReader<'a> {
    /// The message seen.
    pub closed spec fn message(&self) -> &'a Message {
        self.msg
    }

    pub fn from(value: &'a Message) -> (r: Self)
        ensures
            r.message() == value,
    {
        RequestReader { msg: value }
    }

    /// The method word.
    pub fn method(&self) -> (r: &String)
        ensures
            r == &self.message().firstline.0,
    {
        &self.msg.firstline.0
    }

    /// The target word.
    pub fn rawuri(&self) -> (r: &String)
        ensures
            r == &self.message().firstline.1,
    {
        &self.msg.firstline.1
    }

    /// The version of the request line; see [`version_of`].
    pub fn version(&self) -> (r: Result<(u8, u8), ()>)
        ensures
            r == version_of(self.message().firstline.2@),
    {
        let s = chars_of(self.msg.firstline.2.as_str());
        let sl = s.as_slice();
        proof {
            lemma_first_char(sl@, '/', 0);
        }
        match find_char(sl, '/') {
            None => Err(()),
            Some(idx) => {
                assert(idx < s.len());
                let head = string_from_range(s.as_slice(), 0, idx);
                let lower = to_ascii_lowercase(head.as_str());
                let lc = chars_of(lower.as_str());
                let http = chars_of("http");
                assert(s@.subrange(0, idx as int) =~= s@.take(idx as int));
                if !chars_eq(lc.as_slice(), http.as_slice()) {
                    return Err(());
                }
                let rest = string_from_range(s.as_slice(), idx + 1, s.len());
                let versions = chars_of(rest.as_str());
                assert(versions@ =~= s@.skip(idx + 1));
                proof {
                    lemma_first_char(versions@, '.', 0);
                }
                match find_char(versions.as_slice(), '.') {
                    None => Err(()),
                    Some(j) => {
                        let majortxt = string_from_range(versions.as_slice(), 0, j);
                        assert(versions@.subrange(0, j as int) =~= versions@.take(j as int));
                        let major: u8 = match parse_uint(majortxt.as_str(), 255) {
                            Err(_) => {
                                return Err(());
                            },
                            Ok(num) => num as u8,
                        };
                        let minor: u8 = match parse_uint(majortxt.as_str(), 255) {
                            Err(_) => {
                                return Err(());
                            },
                            Ok(num) => num as u8,
                        };
                        Ok((major, minor))
                    },
                }
            },
        }
    }

    /// The header fields.
    pub fn headers(&self) -> (r: &MultiMap)
        ensures
            r == &self.message().headers,
    {
        &self.msg.headers
    }

    /// The body.
    pub fn body(&self) -> (r: &MessageBody)
        ensures
            r == &self.message().body,
    {
        &self.msg.body
    }
}

} // verus!
