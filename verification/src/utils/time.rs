//! The current time as text.
use chrono::{Datelike as _, Timelike as _};
use std::fmt::Write as _;
use vstd::prelude::*;
use vstd::string::StringExecFns;

use crate::text::{chars_of, decimal, first_some, is_digit, lemma_digit_char, push_char, usize_to_string};

verus! {

/// The layout of [`currentstr`] without one of its own.
pub const DEFAULT_TIME_LAYOUT: &'static str = "%Y-%m-%d %H:%M:%S.%6f";

/// The layout of HTTP `date` headers.
pub const DEFAULT_HTTP_HEADER_TIME_LAYOUT: &'static str = "%a, %d %b %Y %H:%M:%S GMT";

/// A layout of HTTP header times that is not filled in yet.
pub const RFC_850: &'static str = "";

/// A layout of HTTP header times that is not filled in yet.
pub const RFC_ANSIC: &'static str = "";

/// A point in time in UTC: whole seconds since the Unix epoch, and the
/// nanoseconds past that second.
#[derive(Clone, Copy, Debug, PartialEq, Eq, Structural)]
pub struct UtcTime {
    pub secs: i64,
    pub nanos: u32,
}

/// The time, as seconds and nanoseconds, that chrono reads from `txt` laid out
/// by `layout`; `None` when it reads none.
pub uninterp spec fn header_time_of(txt: Seq<char>, layout: Seq<char>) -> Option<(i64, u32)>;

/// The layouts tried, in order, on an HTTP header time.
pub open spec fn http_header_time_layouts() -> Seq<Seq<char>> {
    seq![DEFAULT_HTTP_HEADER_TIME_LAYOUT@, RFC_850@, RFC_ANSIC@]
}

/// The time read from `txt` by the first layout of [`http_header_time_layouts`]
/// that gives one.
pub open spec fn header_value_time(txt: Seq<char>) -> Option<UtcTime> {
    match first_some(http_header_time_layouts(), |l: Seq<char>| header_time_of(txt, l)) {
        Some(p) => Some(UtcTime { secs: p.0, nanos: p.1 }),
        None => None,
    }
}

/// `txt` read as a time laid out by `layout`.
///
/// Trusted: calls `chrono::DateTime::parse_from_str(txt, layout)` and gives the
/// Unix timestamp and sub-second nanoseconds of the time it reads. The result
/// depends on the two texts alone; it is named [`header_time_of`] and not
/// described further.
#[verifier::external_body]
fn parse_header_time(txt: &str, layout: &str) -> (r: Option<(i64, u32)>)
    ensures
        r == header_time_of(txt@, layout@),
{
    match chrono::DateTime::parse_from_str(txt, layout) {
        Ok(t) => Some((t.timestamp(), t.timestamp_subsec_nanos())),
        Err(_) => None,
    }
}

/// The time of an HTTP header value, read by the first layout of
/// [`http_header_time_layouts`] that chrono accepts; `None` when none does.
pub fn parse_from_header_value(txt: &str) -> (r: Option<UtcTime>)
    ensures
        r == header_value_time(txt@),
{
    let layouts: [&str; 3] = [DEFAULT_HTTP_HEADER_TIME_LAYOUT, RFC_850, RFC_ANSIC];
    let ghost ls = http_header_time_layouts();
    let ghost f = |l: Seq<char>| header_time_of(txt@, l);
    let mut k: usize = 0;
    assert(ls.skip(0) =~= ls);
    while k < 3
        invariant
            k <= 3,
            ls == http_header_time_layouts(),
            f == (|l: Seq<char>| header_time_of(txt@, l)),
            forall|j: int| 0 <= j < 3 ==> #[trigger] layouts@[j]@ == ls[j],
            first_some(ls, f) == first_some(ls.skip(k as int), f),
        decreases 3 - k,
    {
        let t = parse_header_time(txt, layouts[k]);
        proof {
            assert(ls.skip(k as int)[0] == ls[k as int]);
            assert(ls.skip(k as int).drop_first() =~= ls.skip(k + 1));
        }
        if let Some(p) = t {
            return Some(UtcTime { secs: p.0, nanos: p.1 });
        }
        k = k + 1;
    }
    proof {
        assert(ls.skip(3) =~= Seq::<Seq<char>>::empty());
    }
    None
}

/// The text chrono's `format(layout)` renders for the local time whose UTC
/// instant is `secs` seconds and `nanos` nanoseconds after the Unix epoch and
/// whose offset from UTC is `offset_secs` seconds; the empty text where
/// chrono cannot render `layout`.
pub uninterp spec fn local_time_text(secs: i64, nanos: u32, offset_secs: i32, layout: Seq<char>) -> Seq<char>;

/// The text chrono's `format(layout)` renders for the UTC time `secs`
/// seconds and `nanos` nanoseconds after the Unix epoch; the empty text where
/// chrono cannot render `layout`.
pub uninterp spec fn utc_time_text(secs: i64, nanos: u32, layout: Seq<char>) -> Seq<char>;

/// The local time now, laid out by `layout`.
///
/// Trusted: formats `chrono::Local::now()` with `layout`. The contract
/// claims that the text is what the layout renders for some instant and
/// offset (named by [`local_time_text`]); which instant depends on the
/// clock. A layout that chrono cannot render gives the empty text.
#[verifier::external_body]
fn local_now_str(layout: &str) -> (r: String)
    ensures
        exists|secs: i64, nanos: u32, offset_secs: i32|
            r@ == #[trigger] local_time_text(secs, nanos, offset_secs, layout@),
{
    let mut s = String::new();
    match write!(s, "{}", chrono::Local::now().format(layout)) {
        Ok(_) => s,
        Err(_) => String::new(),
    }
}

/// The UTC time now, laid out by `layout`.
///
/// Trusted: formats `chrono::Utc::now()` with `layout`. The contract claims
/// that the text is what the layout renders for some instant (named by
/// [`utc_time_text`]); which instant depends on the clock. A layout that
/// chrono cannot render gives the empty text.
#[verifier::external_body]
pub(crate) fn utc_now_str(layout: &str) -> (r: String)
    ensures
        exists|secs: i64, nanos: u32| r@ == #[trigger] utc_time_text(secs, nanos, layout@),
{
    let mut s = String::new();
    match write!(s, "{}", chrono::Utc::now().format(layout)) {
        Ok(_) => s,
        Err(_) => String::new(),
    }
}

/// The local clock at one moment: Unix time in milliseconds, the date, and
/// the hour, minute, second and nanosecond the local clock shows.
#[derive(Debug, Clone, Copy, PartialEq, Eq, Structural)]
pub struct LocalClock {
    pub millis: i64,
    pub year: i32,
    pub month: u32,
    pub day: u32,
    pub hour: u32,
    pub minute: u32,
    pub second: u32,
    pub nanos: u32,
}

/// The values a clock reading can take.
pub open spec fn clock_ok(c: LocalClock) -> bool {
    &&& 1 <= c.month <= 12
    &&& 1 <= c.day <= 31
    &&& c.hour < 24
    &&& c.minute < 60
    &&& c.second < 60
    &&& c.nanos < 2_000_000_000
}

/// The local clock now.
///
/// Trusted: reads `chrono::Local::now()` once and gives its
/// `timestamp_millis`, `year`, `month`, `day`, `hour`, `minute`, `second`
/// and `nanosecond`. The ranges are those chrono's `Datelike` and
/// `Timelike` document (nanoseconds from one billion on mark a leap second);
/// the values themselves depend on the clock.
#[verifier::external_body]
pub(crate) fn local_clock_now() -> (c: LocalClock)
    ensures
        clock_ok(c),
{
    let t = chrono::Local::now();
    LocalClock {
        millis: t.timestamp_millis(),
        year: t.year(),
        month: t.month(),
        day: t.day(),
        hour: t.hour(),
        minute: t.minute(),
        second: t.second(),
        nanos: t.nanosecond(),
    }
}

/// `k` zeros.
pub open spec fn zeros(k: nat) -> Seq<char> {
    Seq::new(k, |i: int| '0')
}

/// `n` in decimal, padded with zeros in front to at least `w` digits.
pub open spec fn padded(n: nat, w: nat) -> Seq<char> {
    let d = decimal(n);
    if d.len() < w {
        zeros((w - d.len()) as nat) + d
    } else {
        d
    }
}

/// A year as `%Y` writes it: four digits for the years 0 to 9999; a sign
/// and at least four digits for the others.
pub open spec fn year_text(y: int) -> Seq<char> {
    if 0 <= y <= 9999 {
        padded(y as nat, 4)
    } else if y > 9999 {
        seq!['+'] + padded(y as nat, 4)
    } else {
        seq!['-'] + padded((-y) as nat, 4)
    }
}

/// The clock reading `c` laid out by [`DEFAULT_TIME_LAYOUT`]: the seconds
/// show 60 in a leap second, and the fraction the microseconds within it.
pub open spec fn default_time_text(c: LocalClock) -> Seq<char> {
    year_text(c.year as int) + seq!['-'] + padded(c.month as nat, 2) + seq!['-'] + padded(
        c.day as nat,
        2,
    ) + seq![' '] + padded(c.hour as nat, 2) + seq![':'] + padded(c.minute as nat, 2) + seq![':']
        + padded((c.second + c.nanos / 1_000_000_000) as nat, 2) + seq!['.'] + padded(
        ((c.nanos / 1000) % 1_000_000) as nat,
        6,
    )
}

/// Appends `n` padded with zeros to at least `w` digits.
fn push_padded(out: &mut String, n: u32, w: usize)
    ensures
        final(out)@ == old(out)@ + padded(n as nat, w as nat),
{
    let d = usize_to_string(n as usize);
    let dl = chars_of(d.as_str()).len();
    let ghost start = out@;
    if dl < w {
        let mut i: usize = 0;
        while i < w - dl
            invariant
                i <= w - dl,
                out@ == start + zeros(i as nat),
            decreases w - dl - i,
        {
            push_char(out, '0');
            assert(zeros((i + 1) as nat) =~= zeros(i as nat).push('0'));
            i += 1;
        }
    }
    out.append(d.as_str());
    assert(out@ =~= start + padded(n as nat, w as nat));
}

/// The clock reading `c` as text; see [`default_time_text`].
pub fn default_time_string(c: LocalClock) -> (r: String)
    requires
        clock_ok(c),
    ensures
        r@ == default_time_text(c),
{
    let mut s = String::new();
    let y: i64 = c.year as i64;
    if y > 9999 {
        push_char(&mut s, '+');
    } else if y < 0 {
        push_char(&mut s, '-');
    }
    let ya: u32 = if y < 0 {
        (-y) as u32
    } else {
        y as u32
    };
    push_padded(&mut s, ya, 4);
    push_char(&mut s, '-');
    push_padded(&mut s, c.month, 2);
    push_char(&mut s, '-');
    push_padded(&mut s, c.day, 2);
    push_char(&mut s, ' ');
    push_padded(&mut s, c.hour, 2);
    push_char(&mut s, ':');
    push_padded(&mut s, c.minute, 2);
    push_char(&mut s, ':');
    push_padded(&mut s, c.second + c.nanos / 1_000_000_000, 2);
    push_char(&mut s, '.');
    push_padded(&mut s, (c.nanos / 1000) % 1_000_000, 6);
    proof {
        let yt = year_text(c.year as int);
        assert(yt == (if y > 9999 {
            seq!['+']
        } else if y < 0 {
            seq!['-']
        } else {
            Seq::<char>::empty()
        }) + padded(ya as nat, 4));
    }
    assert(s@ =~= default_time_text(c));
    s
}

/// Powers of ten.
pub open spec fn pow10(w: nat) -> nat
    decreases w,
{
    if w == 0 {
        1
    } else {
        10 * pow10((w - 1) as nat)
    }
}

proof fn lemma_decimal_fits(n: nat, w: nat)
    requires
        1 <= w,
        n < pow10(w),
    ensures
        decimal(n).len() <= w,
        forall|i: int| 0 <= i < decimal(n).len() ==> is_digit(#[trigger] decimal(n)[i]),
    decreases w,
{
    if n < 10 {
        lemma_digit_char(n);
    } else {
        assert(w >= 2) by {
            if w == 1 {
                assert(pow10(1) == 10 * pow10(0));
            }
        }
        assert(n / 10 < pow10((w - 1) as nat)) by (nonlinear_arith)
            requires
                n < 10 * pow10((w - 1) as nat),
        ;
        lemma_decimal_fits(n / 10, (w - 1) as nat);
        lemma_digit_char(n % 10);
        let d = decimal(n);
        assert forall|i: int| 0 <= i < d.len() implies is_digit(#[trigger] d[i]) by {
            if i < d.len() - 1 {
                assert(d[i] == decimal(n / 10)[i]);
            }
        }
    }
}

proof fn lemma_padded_fits(n: nat, w: nat)
    requires
        1 <= w,
        n < pow10(w),
    ensures
        padded(n, w).len() == w,
        forall|i: int| 0 <= i < w ==> is_digit(#[trigger] padded(n, w)[i]),
{
    lemma_decimal_fits(n, w);
    let d = decimal(n);
    let p = padded(n, w);
    assert forall|i: int| 0 <= i < w implies is_digit(#[trigger] p[i]) by {
        if d.len() < w {
            let k = (w - d.len()) as nat;
            if i < k {
                assert(p[i] == zeros(k)[i]);
            } else {
                assert(p[i] == d[i - k]);
            }
        }
    }
}

/// For the years 0 to 9999, the text of [`DEFAULT_TIME_LAYOUT`] is 26
/// characters: digits, with `-` `-` ` ` `:` `:` `.` at places 4, 7, 10, 13,
/// 16 and 19.
pub proof fn law_default_time_shape(c: LocalClock)
    requires
        clock_ok(c),
        0 <= c.year <= 9999,
    ensures
        default_time_text(c).len() == 26,
        default_time_text(c)[4] == '-',
        default_time_text(c)[7] == '-',
        default_time_text(c)[10] == ' ',
        default_time_text(c)[13] == ':',
        default_time_text(c)[16] == ':',
        default_time_text(c)[19] == '.',
        forall|i: int|
            0 <= i < 26 && i != 4 && i != 7 && i != 10 && i != 13 && i != 16 && i != 19
                ==> is_digit(#[trigger] default_time_text(c)[i]),
{
    reveal_with_fuel(pow10, 7);
    let sec = (c.second + c.nanos / 1_000_000_000) as nat;
    let frac = ((c.nanos / 1000) % 1_000_000) as nat;
    lemma_padded_fits(c.year as nat, 4);
    lemma_padded_fits(c.month as nat, 2);
    lemma_padded_fits(c.day as nat, 2);
    lemma_padded_fits(c.hour as nat, 2);
    lemma_padded_fits(c.minute as nat, 2);
    lemma_padded_fits(sec, 2);
    lemma_padded_fits(frac, 6);
    let t = default_time_text(c);
    let y = padded(c.year as nat, 4);
    let mo = padded(c.month as nat, 2);
    let da = padded(c.day as nat, 2);
    let h = padded(c.hour as nat, 2);
    let mi = padded(c.minute as nat, 2);
    let s = padded(sec, 2);
    let f = padded(frac, 6);
    assert(t =~= y + seq!['-'] + mo + seq!['-'] + da + seq![' '] + h + seq![':'] + mi + seq![':'] + s
        + seq!['.'] + f);
    assert forall|i: int|
        0 <= i < 26 && i != 4 && i != 7 && i != 10 && i != 13 && i != 16 && i != 19
            implies is_digit(#[trigger] t[i]) by {
        if i < 4 {
            assert(t[i] == y[i]);
        } else if i < 7 {
            assert(t[i] == mo[i - 5]);
        } else if i < 10 {
            assert(t[i] == da[i - 8]);
        } else if i < 13 {
            assert(t[i] == h[i - 11]);
        } else if i < 16 {
            assert(t[i] == mi[i - 14]);
        } else if i < 19 {
            assert(t[i] == s[i - 17]);
        } else {
            assert(t[i] == f[i - 20]);
        }
    }
}

/// The local time now, laid out by `layout`, or by [`DEFAULT_TIME_LAYOUT`]
/// (see [`default_time_text`]) when none is given.
pub fn currentstr(layout: Option<&str>) -> (r: String)
    ensures
        layout is None ==> exists|c: LocalClock| clock_ok(c) && r@ == default_time_text(c),
        layout matches Some(l) ==> exists|secs: i64, nanos: u32, offset_secs: i32|
            r@ == #[trigger] local_time_text(secs, nanos, offset_secs, l@),
{
    match layout {
        None => {
            let c = local_clock_now();
            default_time_string(c)
        },
        Some(l) => local_now_str(l),
    }
}

} // verus!
