//! A log file that is renamed aside once an hour or once a day.
use vstd::prelude::*;
use vstd::string::{StringExecFns, StringSliceAdditionalSpecFns};
use vstd::utf8::{decode_utf8, encode_utf8, is_char_boundary};

use crate::router::last_char;
use crate::text::str_to_string;
use crate::uri::cut_ok;
use crate::utils::time::{clock_ok, local_clock_now, LocalClock};

verus! {

/// How often the file is rotated.
#[derive(Debug, Clone, Copy, PartialEq, Eq, Structural)]
pub enum RotationKind {
    Hourly,
    Daily,
}

/// The last component of a path, as `Path::file_name` gives it.
pub uninterp spec fn path_file_name_of(path: Seq<char>) -> Option<Seq<char>>;

/// The extension of a file name, as `Path::extension` documents it: none
/// without a file name, without a `.`, or when the only `.` begins the name;
/// else what follows the last `.`.
pub open spec fn extension_of(file_name: Option<Seq<char>>) -> Option<Seq<char>> {
    match file_name {
        None => None,
        Some(f) => match last_char(f, '.') {
            None => None,
            Some(i) => if i == 0 {
                None
            } else {
                Some(f.skip(i + 1))
            },
        },
    }
}

/// The file name of `path`.
///
/// Trusted: calls `std::path::Path::file_name` on `path` and reads the result
/// back as UTF-8 (it is part of `path`). The contract claims that the
/// result depends on `path` alone.
#[verifier::external_body]
fn path_file_name(path: &str) -> (r: Option<String>)
    ensures
        match r {
            Some(s) => path_file_name_of(path@) == Some(s@),
            None => path_file_name_of(path@) is None,
        },
{
    match std::path::Path::new(path).file_name() {
        Some(v) => match v.to_str() {
            Some(s) => Some(s.to_string()),
            None => None,
        },
        None => None,
    }
}

/// The extension of `path`, empty when it has none.
///
/// Trusted: calls `std::path::Path::extension` on `path`. Its documentation
/// defines the extension from the file name; see [`extension_of`].
#[verifier::external_body]
fn path_extension(path: &str) -> (r: String)
    ensures
        r@ == match extension_of(path_file_name_of(path@)) {
            Some(e) => e,
            None => Seq::<char>::empty(),
        },
{
    match std::path::Path::new(path).extension() {
        Some(v) => v.to_string_lossy().to_string(),
        None => String::new(),
    }
}

/// The last millisecond of the hour (or of the day) that `c` falls in, in
/// milliseconds since the Unix epoch: the clock moved on to minute 59,
/// second 59, millisecond 999 (and, for a day, hour 23); 0 for a time
/// before the epoch.
pub open spec fn period_end_spec(kind: RotationKind, c: LocalClock) -> int {
    let to_hour_end = (59 - c.minute) * 60_000 + (59 - c.second) * 1000 + (999 - c.nanos / 1_000_000);
    let end = match kind {
        RotationKind::Hourly => c.millis + to_hour_end,
        RotationKind::Daily => c.millis + (23 - c.hour) * 3_600_000 + to_hour_end,
    };
    if end < 0 {
        0
    } else {
        end
    }
}

/// The end of the period of `kind` that `c` falls in.
pub fn period_end(kind: RotationKind, c: LocalClock) -> (r: u128)
    requires
        clock_ok(c),
    ensures
        r == period_end_spec(kind, c),
{
    let to_hour_end: i128 = (59 - c.minute) as i128 * 60_000 + (59 - c.second) as i128 * 1000 + (999
        - (c.nanos / 1_000_000) as i128);
    let end: i128 = match kind {
        RotationKind::Hourly => c.millis as i128 + to_hour_end,
        RotationKind::Daily => c.millis as i128 + (23 - c.hour) as i128 * 3_600_000 + to_hour_end,
    };
    if end < 0 {
        0
    } else {
        end as u128
    }
}

/// The part of a path before its file name, and the file name without its
/// extension and the dot before it (the whole name without an extension),
/// cut as bytes.
pub open spec fn split_names(fp: Seq<char>, file_name: Seq<char>, ext: Seq<char>) -> (
    Seq<char>,
    Seq<char>,
) {
    let pb = encode_utf8(fp);
    let nb = encode_utf8(file_name);
    let eb = encode_utf8(ext);
    (
        decode_utf8(pb.take(pb.len() - nb.len())),
        if ext.len() == 0 {
            file_name
        } else {
            decode_utf8(nb.take(nb.len() - eb.len() - 1))
        },
    )
}

/// Whether those cuts fall on character boundaries.
pub open spec fn splittable(fp: Seq<char>, file_name: Seq<char>, ext: Seq<char>) -> bool {
    let pb = encode_utf8(fp);
    let nb = encode_utf8(file_name);
    let eb = encode_utf8(ext);
    &&& cut_ok(pb, 0, pb.len() - nb.len())
    &&& ext.len() > 0 ==> cut_ok(nb, 0, nb.len() - eb.len() - 1)
}

/// The names a path is rotated under: the file name `path_file_name_of`
/// gives, its extension, and the cuts of [`split_names`]; `Err` without a
/// file name or when the cuts do not fall on character boundaries.
pub open spec fn rotation_names(fp: Seq<char>) -> Result<(Seq<char>, Seq<char>, Seq<char>), ()> {
    match path_file_name_of(fp) {
        None => Err(()),
        Some(f) => {
            let e = match extension_of(Some(f)) {
                Some(e) => e,
                None => Seq::<char>::empty(),
            };
            if splittable(fp, f, e) {
                Ok((split_names(fp, f, e).0, split_names(fp, f, e).1, e))
            } else {
                Err(())
            }
        },
    }
}

/// Why a path has no rotation names: it has no file name, or its cuts do
/// not fall on character boundaries.
pub open spec fn names_error(fp: Seq<char>) -> Seq<char> {
    if path_file_name_of(fp) is None {
        "empty filename"@
    } else {
        "file name cannot be split"@
    }
}

/// The cuts of [`split_names`].
pub fn split_log_path(fp: &str, file_name: &str, ext: &str) -> (r: (String, String))
    requires
        splittable(fp@, file_name@, ext@),
    ensures
        r.0@ == split_names(fp@, file_name@, ext@).0,
        r.1@ == split_names(fp@, file_name@, ext@).1,
{
    let n = fp.as_bytes().len() - file_name.as_bytes().len();
    assert(encode_utf8(fp@).take(n as int) =~= encode_utf8(fp@).subrange(0, n as int));
    let prefix = match crate::uri::str_get(fp, 0, n) {
        Some(p) => {
            proof {
                vstd::utf8::encode_utf8_decode_utf8(p@);
                vstd::utf8::encode_utf8_decode_utf8(fp@);
            }
            p.to_owned()
        },
        None => String::new(),
    };
    if ext.as_bytes().len() == 0 {
        return (prefix, str_to_string(file_name));
    }
    let m = file_name.as_bytes().len() - ext.as_bytes().len() - 1;
    assert(encode_utf8(file_name@).take(m as int) =~= encode_utf8(file_name@).subrange(0, m as int));
    let base = match crate::uri::str_get(file_name, 0, m) {
        Some(b) => {
            proof {
                vstd::utf8::encode_utf8_decode_utf8(b@);
            }
            b.to_owned()
        },
        None => String::new(),
    };
    (prefix, base)
}

/// Appends log output to a file; once the hour or the day is over, the
/// file is renamed to `<prefix><base>.<stamp>.<ext>` and opened anew.
pub struct RotationFileAppender {
    rotate_at: u128,
    kind: RotationKind,
    fp: String,
    name_prefix: String,
    base_name: String,
    file_ext: String,
    service: usize,
    bufsize: usize,
    renderer: String,
}

/// What to do after a rename failed at an attempt.
#[derive(Debug, Clone, Copy, PartialEq, Eq, Structural)]
pub enum RenameRetry {
    Retry(usize),
    GiveUp,
}

impl RotationFileAppender {
    pub closed spec fn kind(&self) -> RotationKind {
        self.kind
    }

    pub closed spec fn path(&self) -> Seq<char> {
        self.fp@
    }

    pub closed spec fn prefix(&self) -> Seq<char> {
        self.name_prefix@
    }

    pub closed spec fn base(&self) -> Seq<char> {
        self.base_name@
    }

    pub closed spec fn ext(&self) -> Seq<char> {
        self.file_ext@
    }

    pub closed spec fn rotate_at(&self) -> u128 {
        self.rotate_at
    }

    pub closed spec fn service_id(&self) -> usize {
        self.service
    }

    pub closed spec fn buffer_size(&self) -> usize {
        self.bufsize
    }

    pub closed spec fn renderer_name(&self) -> Seq<char> {
        self.renderer@
    }

    /// A daily appender; see [`RotationFileAppender::new`].
    pub fn daily(service: usize, fp: &str, bufsize: usize, renderer: &str) -> (r: Result<Self, String>)
        ensures
            match (r, rotation_names(fp@)) {
                (Ok(a), Ok((p, b, e))) => a.kind() == RotationKind::Daily && a.path() == fp@
                    && a.prefix() == p && a.base() == b && a.ext() == e && a.service_id() == service
                    && a.buffer_size() == bufsize && a.renderer_name() == renderer@
                    && exists|c: LocalClock|
                    clock_ok(c) && a.rotate_at() == period_end_spec(RotationKind::Daily, c),
                (Err(m), Err(_)) => m@ == names_error(fp@),
                _ => false,
            },
    {
        Self::new(RotationKind::Daily, service, fp, bufsize, renderer)
    }

    /// An appender for the file `fp`, rotated as `kind` says; `Err` when
    /// `fp` has no file name to rotate (see [`rotation_names`]).
    pub fn new(kind: RotationKind, service: usize, fp: &str, bufsize: usize, renderer: &str) -> (r:
        Result<Self, String>)
        ensures
            match (r, rotation_names(fp@)) {
                (Ok(a), Ok((p, b, e))) => a.kind() == kind && a.path() == fp@ && a.prefix() == p
                    && a.base() == b && a.ext() == e && a.service_id() == service && a.buffer_size()
                    == bufsize && a.renderer_name() == renderer@ && exists|c: LocalClock|
                    clock_ok(c) && a.rotate_at() == period_end_spec(kind, c),
                (Err(m), Err(_)) => m@ == names_error(fp@),
                _ => false,
            },
    {
        let ext = path_extension(fp);
        let filename = match path_file_name(fp) {
            None => {
                return Err(str_to_string("empty filename"));
            },
            Some(f) => f,
        };
        let fl = fp.as_bytes().len();
        let nl = filename.as_str().as_bytes().len();
        let el = ext.as_str().as_bytes().len();
        let ok_prefix = fl >= nl && fp.is_char_boundary(fl - nl);
        let ok_base = el == 0 || (nl > el && filename.as_str().is_char_boundary(nl - el - 1));
        proof {
            vstd::utf8::encode_utf8_valid_utf8(fp@);
            vstd::utf8::encode_utf8_valid_utf8(filename@);
            vstd::utf8::is_char_boundary_start_end_of_seq(encode_utf8(fp@));
            vstd::utf8::is_char_boundary_start_end_of_seq(encode_utf8(filename@));
        }
        if !(ok_prefix && ok_base) {
            return Err(str_to_string("file name cannot be split"));
        }
        let (prefix, base) = split_log_path(fp, filename.as_str(), ext.as_str());
        let mut this = RotationFileAppender {
            rotate_at: 0,
            kind,
            fp: str_to_string(fp),
            name_prefix: prefix,
            base_name: base,
            file_ext: ext,
            service,
            bufsize,
            renderer: str_to_string(renderer),
        };
        this.next();
        Ok(this)
    }

    /// The end of the current period, in milliseconds since the epoch.
    fn calcnext(&self) -> (r: u128)
        ensures
            exists|c: LocalClock| clock_ok(c) && r == period_end_spec(self.kind(), c),
    {
        let c = local_clock_now();
        period_end(self.kind, c)
    }

    /// Moves the rotation time to the end of the current period.
    pub fn next(&mut self)
        ensures
            final(self).kind() == old(self).kind(),
            final(self).path() == old(self).path(),
            final(self).prefix() == old(self).prefix(),
            final(self).base() == old(self).base(),
            final(self).ext() == old(self).ext(),
            final(self).service_id() == old(self).service_id(),
            final(self).buffer_size() == old(self).buffer_size(),
            final(self).renderer_name() == old(self).renderer_name(),
            exists|c: LocalClock|
                clock_ok(c) && final(self).rotate_at() == period_end_spec(old(self).kind(), c),
    {
        self.rotate_at = self.calcnext();
    }

    /// Whether the file is due for rotation at `now_ms`.
    pub fn due(&self, now_ms: u128) -> (r: bool)
        ensures
            r == (now_ms >= self.rotate_at()),
    {
        !(now_ms < self.rotate_at)
    }

    /// The time layout of the stamp in rotated names.
    pub fn stamp_layout(&self) -> (r: &'static str)
        ensures
            r@ == match self.kind() {
                RotationKind::Hourly => ".%Y%m%d%H"@,
                RotationKind::Daily => ".%Y%m%d"@,
            },
    {
        match self.kind {
            RotationKind::Hourly => ".%Y%m%d%H",
            RotationKind::Daily => ".%Y%m%d",
        }
    }

    /// The rotated name before its extension: prefix, base name and `stamp`.
    pub fn rotated_stem(&self, stamp: &str) -> (r: String)
        ensures
            r@ == self.prefix() + self.base() + stamp@,
    {
        let mut s = self.name_prefix.clone();
        s.append(self.base_name.as_str());
        s.append(stamp);
        s
    }

    /// The name to rename to at an attempt: `<stem>.<ext>` first, then
    /// `<stem>.<nanos>.<ext>`.
    pub fn target_name(&self, stem: &str, attempt: usize, nanos: &str) -> (r: String)
        ensures
            r@ == if attempt == 0 {
                stem@ + "."@ + self.ext()
            } else {
                stem@ + "."@ + nanos@ + "."@ + self.ext()
            },
    {
        let mut s = str_to_string(stem);
        s.append(".");
        if attempt != 0 {
            s.append(nanos);
            s.append(".");
        }
        s.append(self.file_ext.as_str());
        s
    }

    /// After a failed rename: the tenth failure gives up.
    pub fn after_rename_failure(attempt: usize) -> (r: RenameRetry)
        requires
            attempt < 9 || attempt == 9,
        ensures
            r == if attempt == 9 {
                RenameRetry::GiveUp
            } else {
                RenameRetry::Retry((attempt + 1) as usize)
            },
    {
        if attempt == 9 {
            RenameRetry::GiveUp
        } else {
            RenameRetry::Retry(attempt + 1)
        }
    }

    /// The path of the file written.
    pub fn file_path(&self) -> (r: &str)
        ensures
            r@ == self.path(),
    {
        self.fp.as_str()
    }

    /// The service the appender writes for.
    pub fn service(&self) -> (r: usize)
        ensures
            r == self.service_id(),
    {
        self.service
    }

    /// The name of the renderer the appender uses.
    pub fn renderer(&self) -> (r: &str)
        ensures
            r@ == self.renderer_name(),
    {
        self.renderer.as_str()
    }
}

} // verus!
