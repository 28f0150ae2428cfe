//! The MIME types served for common file extensions.
use vstd::prelude::*;

use crate::listmap::{
    assoc_map, keys_distinct, lemma_assoc_dom, lemma_assoc_index, lemma_assoc_len, lemma_assoc_push,
    lemma_assoc_update,
};
use crate::text::{
    chars_of, lemma_split_nonempty, split_on, split_ranges, str_to_string, string_eq_chars,
    string_from_range, trim, trim_bounds, is_ws, lemma_split_without_sep, lemma_trim_plain,
};

verus! {

/// The common types, as listed for the web: the extensions of each type
/// (several separated by commas, each with its dot) and the type itself.
pub const COMMON_MIME_ENTRIES: [(&'static str, &'static str); 74] = [
    (".aac", "audio/aac"),
    (".abw", "application/x-abiword"),
    (".arc", "application/x-freearc"),
    (".avif", "image/avif"),
    (".avi", "video/x-msvideo"),
    (".azw", "application/vnd.amazon.ebook"),
    (".bin", "application/octet-stream"),
    (".bmp", "image/bmp"),
    (".bz", "application/x-bzip"),
    (".bz2", "application/x-bzip2"),
    (".cda", "application/x-cdf"),
    (".csh", "application/x-csh"),
    (".css", "text/css"),
    (".csv", "text/csv"),
    (".doc", "application/msword"),
    (".docx", "application/vnd.openxmlformats-officedocument.wordprocessingml.document"),
    (".eot", "application/vnd.ms-fontobject"),
    (".epub", "application/epub+zip"),
    (".gz", "application/gzip"),
    (".gif", "image/gif"),
    (".html", "text/html"),
    (".ico", "image/vnd.microsoft.icon"),
    (".ics", "text/calendar"),
    (".jar", "application/java-archive"),
    (".jpeg, .jpg", "image/jpeg"),
    (".js", "text/javascript"),
    (".json", "application/json"),
    (".jsonld", "application/ld+json"),
    (".mid", "audio/midi"),
    (".midi", "audio/midi"),
    (".mjs", "text/javascript"),
    (".mp3", "audio/mpeg"),
    (".mp4", "video/mp4"),
    (".mpeg", "video/mpeg"),
    (".mpkg", "application/vnd.apple.installer+xml"),
    (".odp", "application/vnd.oasis.opendocument.presentation"),
    (".ods", "application/vnd.oasis.opendocument.spreadsheet"),
    (".odt", "application/vnd.oasis.opendocument.text"),
    (".oga", "audio/ogg"),
    (".ogv", "video/ogg"),
    (".ogx", "application/ogg"),
    (".opus", "audio/opus"),
    (".otf", "font/otf"),
    (".png", "image/png"),
    (".pdf", "application/pdf"),
    (".php", "application/x-httpd-php"),
    (".ppt", "application/vnd.ms-powerpoint"),
    (".pptx", "application/vnd.openxmlformats-officedocument.presentationml.presentation"),
    (".rar", "application/vnd.rar"),
    (".rtf", "application/rtf"),
    (".sh", "application/x-sh"),
    (".svg", "image/svg+xml"),
    (".tar", "application/x-tar"),
    (".tif", "image/tiff"),
    (".tiff", "image/tiff"),
    (".ts", "video/mp2t"),
    (".ttf", "font/ttf"),
    (".txt", "text/plain"),
    (".vsd", "application/vnd.visio"),
    (".wav", "audio/wav"),
    (".weba", "audio/webm"),
    (".webm", "video/webm"),
    (".webp", "image/webp"),
    (".woff", "font/woff"),
    (".woff2", "font/woff2"),
    (".xhtml", "application/xhtml+xml"),
    (".xls", "application/vnd.ms-excel"),
    (".xlsx", "application/vnd.openxmlformats-officedocument.spreadsheetml.sheet"),
    (".xml", "application/xml"),
    (".xul", "application/vnd.mozilla.xul+xml"),
    (".zip", "application/zip"),
    (".3gp", "video/3gpp"),
    (".3g2", "video/3gpp2"),
    (".7z", "application/x-7z-compressed"),
];

/// A map from file extensions to MIME types.
pub struct MimeTable {
    entries: Vec<(String, String)>,
}

impl MimeTable {
    /// The extensions and their types, in the order the extensions came.
    pub closed spec fn pairs(&self) -> Seq<(Seq<char>, Seq<char>)> {
        self.entries@.map_values(|e: (String, String)| (e.0@, e.1@))
    }

    pub closed spec fn wf(&self) -> bool {
        keys_distinct(self.pairs())
    }

    pub open spec fn view(&self) -> Map<Seq<char>, Seq<char>> {
        assoc_map(self.pairs())
    }

    /// An empty table.
    pub fn new() -> (t: Self)
        ensures
            t.wf(),
            t@ == Map::<Seq<char>, Seq<char>>::empty(),
    {
        let t = MimeTable { entries: Vec::new() };
        assert(t.pairs() =~= Seq::<(Seq<char>, Seq<char>)>::empty());
        t
    }

    /// Sets the type of `ext` to `ty`, in place of any earlier one.
    pub fn insert(&mut self, ext: &str, ty: &str)
        requires
            old(self).wf(),
        ensures
            final(self).wf(),
            final(self)@ == old(self)@.insert(ext@, ty@),
    {
        let kc = chars_of(ext);
        let ghost p = self.pairs();
        let mut i: usize = 0;
        while i < self.entries.len()
            invariant
                i <= self.entries.len(),
                self.pairs() == p,
                p == old(self).pairs(),
                keys_distinct(p),
                kc@ == ext@,
                forall|j: int| 0 <= j < i ==> #[trigger] p[j].0 != ext@,
            decreases self.entries.len() - i,
        {
            assert(p[i as int] == (self.entries@[i as int].0@, self.entries@[i as int].1@));
            if string_eq_chars(&self.entries[i].0, kc.as_slice()) {
                let key = self.entries[i].0.clone();
                self.entries.set(i, (key, str_to_string(ty)));
                proof {
                    assert(p[i as int].0 == ext@);
                    lemma_assoc_update(p, i as int, ty@);
                    assert(self.pairs() =~= p.update(i as int, (p[i as int].0, ty@)));
                }
                return;
            }
            i += 1;
        }
        proof {
            lemma_assoc_dom(p, ext@);
            lemma_assoc_push(p, ext@, ty@);
        }
        self.entries.push((str_to_string(ext), str_to_string(ty)));
        assert(self.pairs() =~= p.push((ext@, ty@)));
    }

    /// The type of `ext`, if the table has one.
    pub fn get(&self, ext: &str) -> (r: Option<&String>)
        requires
            self.wf(),
        ensures
            match r {
                Some(t) => self@.dom().contains(ext@) && self@[ext@] == t@,
                None => !self@.dom().contains(ext@),
            },
    {
        let kc = chars_of(ext);
        let ghost p = self.pairs();
        let mut i: usize = 0;
        while i < self.entries.len()
            invariant
                i <= self.entries.len(),
                self.pairs() == p,
                keys_distinct(p),
                kc@ == ext@,
                forall|j: int| 0 <= j < i ==> #[trigger] p[j].0 != ext@,
            decreases self.entries.len() - i,
        {
            assert(p[i as int] == (self.entries@[i as int].0@, self.entries@[i as int].1@));
            if string_eq_chars(&self.entries[i].0, kc.as_slice()) {
                proof {
                    lemma_assoc_index(p, i as int);
                }
                return Some(&self.entries[i].1);
            }
            i += 1;
        }
        proof {
            lemma_assoc_dom(p, ext@);
        }
        None
    }

    /// The number of extensions.
    pub fn len(&self) -> (n: usize)
        requires
            self.wf(),
        ensures
            n == self@.dom().len(),
    {
        proof {
            lemma_assoc_len(self.pairs());
        }
        self.entries.len()
    }
}

/// The type an entry names: its text up to the first space, comma or
/// semicolon, trimmed.
pub open spec fn mime_value_of(v: Seq<char>) -> Seq<char> {
    trim(split_on(split_on(split_on(v, ' ')[0], ',')[0], ';')[0])
}

/// `p` without its first character.
pub open spec fn without_first(p: Seq<char>) -> Seq<char> {
    if p.len() == 0 {
        p
    } else {
        p.drop_first()
    }
}

/// The extensions an entry names: each comma-separated piece, trimmed,
/// without its first character (the dot).
pub open spec fn mime_keys_of(k: Seq<char>) -> Seq<Seq<char>> {
    split_on(k, ',').map_values(|p: Seq<char>| without_first(trim(p)))
}

/// `m` with each of `keys`, in order, mapped to `v`.
pub open spec fn insert_all(m: Map<Seq<char>, Seq<char>>, keys: Seq<Seq<char>>, v: Seq<char>) -> Map<
    Seq<char>,
    Seq<char>,
>
    decreases keys.len(),
{
    if keys.len() == 0 {
        m
    } else {
        insert_all(m, keys.drop_last(), v).insert(keys.last(), v)
    }
}

/// The table that `entries` give, each entry in turn, later ones winning.
pub open spec fn mime_table_of(entries: Seq<(Seq<char>, Seq<char>)>) -> Map<Seq<char>, Seq<char>>
    decreases entries.len(),
{
    if entries.len() == 0 {
        Map::empty()
    } else {
        insert_all(
            mime_table_of(entries.drop_last()),
            mime_keys_of(entries.last().0),
            mime_value_of(entries.last().1),
        )
    }
}

/// The entries of [`COMMON_MIME_ENTRIES`] as text.
pub open spec fn common_mime_entries() -> Seq<(Seq<char>, Seq<char>)> {
    COMMON_MIME_ENTRIES@.map_values(|e: (&str, &str)| (e.0@, e.1@))
}

/// The common types, and source files and TOML served as text.
pub open spec fn common_mime_types_spec() -> Map<Seq<char>, Seq<char>> {
    mime_table_of(common_mime_entries()).insert("rs"@, "text/plain"@).insert("py"@, "text/plain"@).insert(
        "go"@,
        "text/plain"@,
    ).insert("c"@, "text/plain"@).insert("h"@, "text/plain"@).insert("cpp"@, "text/plain"@).insert(
        "hpp"@,
        "text/plain"@,
    ).insert("toml"@, "application/toml"@)
}

/// The first piece of `s` split on `sep`.
fn first_piece(s: &str, sep: char) -> (r: String)
    ensures
        r@ == split_on(s@, sep)[0],
{
    let c = chars_of(s);
    let ranges = split_ranges(c.as_slice(), sep);
    proof {
        lemma_split_nonempty(s@, sep);
    }
    let (a, b) = ranges[0];
    string_from_range(c.as_slice(), a, b)
}

/// The type an entry names; see [`mime_value_of`].
pub fn mime_value(v: &str) -> (r: String)
    ensures
        r@ == mime_value_of(v@),
{
    let a = first_piece(v, ' ');
    let b = first_piece(a.as_str(), ',');
    let c = first_piece(b.as_str(), ';');
    let cc = chars_of(c.as_str());
    let (lo, hi) = trim_bounds(cc.as_slice(), 0, cc.len());
    assert(cc@.subrange(0, cc@.len() as int) =~= cc@);
    string_from_range(cc.as_slice(), lo, hi)
}

/// Maps each extension that `keys` names to the type `value` names.
fn insert_entry(t: &mut MimeTable, keys: &str, value: &str)
    requires
        old(t).wf(),
    ensures
        final(t).wf(),
        final(t)@ == insert_all(old(t)@, mime_keys_of(keys@), mime_value_of(value@)),
{
    let ty = mime_value(value);
    let kc = chars_of(keys);
    let ranges = split_ranges(kc.as_slice(), ',');
    let ghost ks = mime_keys_of(keys@);
    let mut i: usize = 0;
    assert(ks.take(0) =~= Seq::<Seq<char>>::empty());
    while i < ranges.len()
        invariant
            i <= ranges.len(),
            ranges@.len() == ks.len(),
            kc@ == keys@,
            ks == mime_keys_of(keys@),
            forall|j: int|
                0 <= j < ranges@.len() ==> ranges@[j].0 <= ranges@[j].1 <= kc@.len() && kc@.subrange(
                    #[trigger] ranges@[j].0 as int,
                    ranges@[j].1 as int,
                ) == split_on(kc@, ',')[j],
            t.wf(),
            t@ == insert_all(old(t)@, ks.take(i as int), ty@),
        decreases ranges.len() - i,
    {
        let (a, b) = trim_bounds(kc.as_slice(), ranges[i].0, ranges[i].1);
        let key = if a < b {
            string_from_range(kc.as_slice(), a + 1, b)
        } else {
            String::new()
        };
        proof {
            let piece = trim(split_on(kc@, ',')[i as int]);
            assert(piece == kc@.subrange(a as int, b as int));
            if a < b {
                assert(key@ =~= piece.drop_first());
            } else {
                assert(key@ =~= piece);
            }
            assert(ks[i as int] == without_first(piece));
            assert(ks.take(i + 1).drop_last() =~= ks.take(i as int));
        }
        t.insert(key.as_str(), ty.as_str());
        i += 1;
    }
    assert(ks.take(ks.len() as int) =~= ks);
}

/// The table of common types: [`COMMON_MIME_ENTRIES`], then source files
/// (`rs`, `py`, `go`, `c`, `h`, `cpp`, `hpp`) as `text/plain` and `toml` as
/// `application/toml`.
pub fn common_mime_types() -> (t: MimeTable)
    ensures
        t.wf(),
        t@ == common_mime_types_spec(),
{
    let mut t = MimeTable::new();
    let ghost es = common_mime_entries();
    let mut i: usize = 0;
    assert(es.take(0) =~= Seq::<(Seq<char>, Seq<char>)>::empty());
    while i < COMMON_MIME_ENTRIES.len()
        invariant
            i <= COMMON_MIME_ENTRIES.len(),
            es == common_mime_entries(),
            es.len() == COMMON_MIME_ENTRIES.len(),
            t.wf(),
            t@ == mime_table_of(es.take(i as int)),
        decreases COMMON_MIME_ENTRIES.len() - i,
    {
        let (k, v) = COMMON_MIME_ENTRIES[i];
        proof {
            assert(es[i as int] == (k@, v@));
            assert(es.take(i + 1).drop_last() =~= es.take(i as int));
        }
        insert_entry(&mut t, k, v);
        i += 1;
    }
    assert(es.take(es.len() as int) =~= es);
    t.insert("rs", "text/plain");
    t.insert("py", "text/plain");
    t.insert("go", "text/plain");
    t.insert("c", "text/plain");
    t.insert("h", "text/plain");
    t.insert("cpp", "text/plain");
    t.insert("hpp", "text/plain");
    t.insert("toml", "application/toml");
    t
}

/// The common table serves Rust, Python, Go, C and C++ sources and headers
/// as `text/plain`, and TOML as `application/toml`, whatever the listed
/// entries say of those extensions.
pub proof fn law_source_files_are_text()
    ensures
        common_mime_types_spec().dom().contains("rs"@) && common_mime_types_spec()["rs"@] == "text/plain"@,
        common_mime_types_spec().dom().contains("py"@) && common_mime_types_spec()["py"@] == "text/plain"@,
        common_mime_types_spec().dom().contains("go"@) && common_mime_types_spec()["go"@] == "text/plain"@,
        common_mime_types_spec().dom().contains("c"@) && common_mime_types_spec()["c"@] == "text/plain"@,
        common_mime_types_spec().dom().contains("h"@) && common_mime_types_spec()["h"@] == "text/plain"@,
        common_mime_types_spec().dom().contains("cpp"@) && common_mime_types_spec()["cpp"@] == "text/plain"@,
        common_mime_types_spec().dom().contains("hpp"@) && common_mime_types_spec()["hpp"@] == "text/plain"@,
        common_mime_types_spec().dom().contains("toml"@) && common_mime_types_spec()["toml"@]
            == "application/toml"@,
{
    reveal_strlit("rs");
    reveal_strlit("py");
    reveal_strlit("go");
    reveal_strlit("c");
    reveal_strlit("h");
    reveal_strlit("cpp");
    reveal_strlit("hpp");
    reveal_strlit("toml");
    assert("rs"@[0] != "py"@[0]);
    assert("rs"@[0] != "go"@[0]);
    assert("rs"@.len() != "c"@.len());
    assert("rs"@.len() != "h"@.len());
    assert("rs"@.len() != "cpp"@.len());
    assert("rs"@.len() != "hpp"@.len());
    assert("rs"@.len() != "toml"@.len());
    assert("py"@[0] != "go"@[0]);
    assert("py"@.len() != "c"@.len());
    assert("py"@.len() != "h"@.len());
    assert("py"@.len() != "cpp"@.len());
    assert("py"@.len() != "hpp"@.len());
    assert("py"@.len() != "toml"@.len());
    assert("go"@.len() != "c"@.len());
    assert("go"@.len() != "h"@.len());
    assert("go"@.len() != "cpp"@.len());
    assert("go"@.len() != "hpp"@.len());
    assert("go"@.len() != "toml"@.len());
    assert("c"@[0] != "h"@[0]);
    assert("c"@.len() != "cpp"@.len());
    assert("c"@.len() != "hpp"@.len());
    assert("c"@.len() != "toml"@.len());
    assert("h"@.len() != "cpp"@.len());
    assert("h"@.len() != "hpp"@.len());
    assert("h"@.len() != "toml"@.len());
    assert("cpp"@[0] != "hpp"@[0]);
    assert("cpp"@.len() != "toml"@.len());
    assert("hpp"@.len() != "toml"@.len());
}

/// An entry with one extension and a bare type: the extension is the key
/// without its first character (the dot), and the type is taken as it is.
pub proof fn law_plain_entry(k: Seq<char>, v: Seq<char>)
    requires
        k.len() >= 1,
        forall|i: int| 0 <= i < k.len() ==> #[trigger] k[i] != ',' && !is_ws(k[i]),
        forall|i: int| 0 <= i < v.len() ==> #[trigger] v[i] != ' ' && v[i] != ',' && v[i] != ';' && !is_ws(v[i]),
    ensures
        mime_keys_of(k) == seq![k.drop_first()],
        mime_value_of(v) == v,
{
    lemma_split_without_sep(k, ',');
    lemma_trim_plain(k);
    assert(mime_keys_of(k) =~= seq![k.drop_first()]);
    lemma_split_without_sep(v, ' ');
    lemma_split_without_sep(v, ',');
    lemma_split_without_sep(v, ';');
    lemma_trim_plain(v);
}

/// `insert_all` maps every one of the keys to the value and leaves the other
/// keys as they were.
proof fn lemma_insert_all(m: Map<Seq<char>, Seq<char>>, keys: Seq<Seq<char>>, v: Seq<char>)
    ensures
        forall|j: int| 0 <= j < keys.len() ==> #[trigger] insert_all(m, keys, v).dom().contains(keys[j])
            && insert_all(m, keys, v)[keys[j]] == v,
        forall|k: Seq<char>| !keys.contains(k) ==> (#[trigger] insert_all(m, keys, v).dom().contains(k)
            == m.dom().contains(k)) && (m.dom().contains(k) ==> insert_all(m, keys, v)[k] == m[k]),
    decreases keys.len(),
{
    if keys.len() > 0 {
        let t = keys.drop_last();
        lemma_insert_all(m, t, v);
        let mt = insert_all(m, t, v);
        assert(insert_all(m, keys, v) == mt.insert(keys.last(), v));
        assert forall|j: int| 0 <= j < keys.len() implies #[trigger] insert_all(m, keys, v).dom().contains(
            keys[j],
        ) && insert_all(m, keys, v)[keys[j]] == v by {
            if j < keys.len() - 1 {
                assert(keys[j] == t[j]);
                assert(mt.dom().contains(t[j]) && mt[t[j]] == v);
            }
        }
        assert forall|k: Seq<char>| !keys.contains(k) implies (#[trigger] insert_all(m, keys, v).dom().contains(k)
            == m.dom().contains(k)) && (m.dom().contains(k) ==> insert_all(m, keys, v)[k] == m[k]) by {
            assert(keys[keys.len() - 1] == keys.last());
            assert(k != keys.last());
            assert(mt.dom().contains(k) == m.dom().contains(k));
            if t.contains(k) {
                let j = choose|j: int| 0 <= j < t.len() && t[j] == k;
                assert(keys[j] == k);
            }
        }
    }
}

/// The last entry wins: each extension it names maps to its type, and the
/// extensions it does not name keep what the earlier entries gave them.
pub proof fn law_later_entry_wins(es: Seq<(Seq<char>, Seq<char>)>, e: (Seq<char>, Seq<char>))
    ensures
        forall|j: int| 0 <= j < mime_keys_of(e.0).len() ==> #[trigger] mime_table_of(es.push(e)).dom().contains(
            mime_keys_of(e.0)[j],
        ) && mime_table_of(es.push(e))[mime_keys_of(e.0)[j]] == mime_value_of(e.1),
        forall|k: Seq<char>| !mime_keys_of(e.0).contains(k) ==> (#[trigger] mime_table_of(es.push(e)).dom().contains(k)
            == mime_table_of(es).dom().contains(k)) && (mime_table_of(es).dom().contains(k)
            ==> mime_table_of(es.push(e))[k] == mime_table_of(es)[k]),
{
    assert(es.push(e).drop_last() =~= es);
    assert(es.push(e).last() == e);
    assert(mime_table_of(es.push(e)) == insert_all(mime_table_of(es), mime_keys_of(e.0), mime_value_of(e.1)));
    lemma_insert_all(mime_table_of(es), mime_keys_of(e.0), mime_value_of(e.1));
}

} // verus!
