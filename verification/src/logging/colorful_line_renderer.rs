//! A renderer that writes one coloured line per log record; its colour
//! scheme is a type parameter.
use vstd::prelude::*;

use vstd::string::StringExecFns;
use vstd::utf8::encode_utf8;

use crate::text::{decimal, push_char, str_to_string, usize_to_string};

verus! {

/// Renders log records as coloured lines.
pub struct ColorfulLineRenderer<S> {
    name: String,
    scheme: S,
    timelayout: String,
}

impl<S: Default> Default for ColorfulLineRenderer<S> {
    fn default() -> (r: Self)
        ensures
            r.name_text() == Seq::<char>::empty(),
            r.layout() == Seq::<char>::empty(),
    {
        ColorfulLineRenderer { name: String::new(), scheme: S::default(), timelayout: String::new() }
    }
}

impl<S> ColorfulLineRenderer<S> {
    /// The name set, possibly empty.
    pub closed spec fn name_text(&self) -> Seq<char> {
        self.name@
    }

    /// The colour scheme.
    pub closed spec fn colors(&self) -> S {
        self.scheme
    }

    /// The time layout set, possibly empty.
    pub closed spec fn layout(&self) -> Seq<char> {
        self.timelayout@
    }

    /// The renderer's name: the one set, or `ColorfulLineRenderer`.
    pub fn name(&self) -> (r: &str)
        ensures
            r@ == if self.name_text().len() == 0 {
                "ColorfulLineRenderer"@
            } else {
                self.name_text()
            },
    {
        if self.name.as_str().is_empty() {
            return "ColorfulLineRenderer";
        }
        self.name.as_str()
    }

    /// The time layout, or the default `%Y-%m-%d %H:%M:%S%.3f` when none is set.
    pub fn time_layout(&self) -> (r: &str)
        ensures
            r@ == if self.layout().len() == 0 {
                "%Y-%m-%d %H:%M:%S%.3f"@
            } else {
                self.layout()
            },
    {
        if self.timelayout.as_str().is_empty() {
            return "%Y-%m-%d %H:%M:%S%.3f";
        }
        self.timelayout.as_str()
    }

    /// The colour scheme.
    pub fn scheme(&self) -> (r: &S)
        ensures
            *r == self.colors(),
    {
        &self.scheme
    }
}

/// Builds a [`ColorfulLineRenderer`].
pub struct ColorfulLineRendererBuilder<S> {
    ins: ColorfulLineRenderer<S>,
}

impl<S> ColorfulLineRendererBuilder<S> {
    /// The renderer built so far.
    pub closed spec fn renderer(&self) -> ColorfulLineRenderer<S> {
        self.ins
    }

    pub fn new() -> (b: Self) where S: Default
        ensures
            b.renderer().name_text() == Seq::<char>::empty(),
            b.renderer().layout() == Seq::<char>::empty(),
    {
        ColorfulLineRendererBuilder { ins: ColorfulLineRenderer::default() }
    }

    pub fn with_name(&mut self, name: &str) -> (r: &mut Self)
        ensures
            r.renderer().name_text() == name@,
            r.renderer().colors() == old(self).renderer().colors(),
            r.renderer().layout() == old(self).renderer().layout(),
            *final(self) == *final(r),
    {
        self.ins.name = str_to_string(name);
        self
    }

    pub fn with_shceme(&mut self, scheme: S) -> (r: &mut Self)
        ensures
            r.renderer().name_text() == old(self).renderer().name_text(),
            r.renderer().colors() == scheme,
            r.renderer().layout() == old(self).renderer().layout(),
            *final(self) == *final(r),
    {
        self.ins.scheme = scheme;
        self
    }

    pub fn with_timelayout(&mut self, layout: &str) -> (r: &mut Self)
        ensures
            r.renderer().name_text() == old(self).renderer().name_text(),
            r.renderer().colors() == old(self).renderer().colors(),
            r.renderer().layout() == layout@,
            *final(self) == *final(r),
    {
        self.ins.timelayout = str_to_string(layout);
        self
    }

    pub fn finish(self) -> (r: ColorfulLineRenderer<S>)
        ensures
            r == self.renderer(),
    {
        self.ins
    }
}

/// A 24-bit colour. A `block` colour is not written: text in it stays plain.
#[derive(Debug, Clone, Copy, PartialEq, Eq, Structural)]
pub struct Color {
    pub red: u8,
    pub green: u8,
    pub blue: u8,
    pub block: bool,
}

/// The colours of the parts of one line: the level's colour (also used for
/// the message and the values), and those of the time, the file, the line
/// number and the keys.
#[derive(Debug, Clone, Copy, PartialEq, Eq, Structural)]
pub struct LineColors {
    pub level: Option<Color>,
    pub time: Option<Color>,
    pub file: Option<Color>,
    pub line: Option<Color>,
    pub key: Option<Color>,
}

/// A log record: its level's name, where it was logged, the message and
/// key/value pairs.
pub struct LogItem {
    pub level: String,
    pub file: String,
    pub line: u32,
    pub msg: String,
    pub kvs: Vec<(String, String)>,
}

/// `txt` in colour `c`: wrapped in the terminal codes that set the 24-bit
/// foreground colour and reset it, unless there is no colour or it is a
/// block colour.
pub open spec fn colored(txt: Seq<char>, c: Option<Color>) -> Seq<char> {
    match c {
        Some(c) => if c.block {
            txt
        } else {
            seq!['\u{1b}'] + "[38;2;"@ + decimal(c.red as nat) + ";"@ + decimal(c.green as nat) + ";"@
                + decimal(c.blue as nat) + "m"@ + txt + seq!['\u{1b}'] + "[0m"@
        },
        None => txt,
    }
}

/// One key/value pair: the key in the key colour, `: `, the value in `vc`.
pub open spec fn kv_text(kv: (Seq<char>, Seq<char>), kc: Option<Color>, vc: Option<Color>) -> Seq<char> {
    colored(kv.0, kc) + ": "@ + colored(kv.1, vc)
}

/// The pairs, each as [`kv_text`], separated by ` , `.
pub open spec fn kvs_text(kvs: Seq<(Seq<char>, Seq<char>)>, kc: Option<Color>, vc: Option<Color>) -> Seq<char>
    decreases kvs.len(),
{
    if kvs.len() == 0 {
        Seq::empty()
    } else if kvs.len() == 1 {
        kv_text(kvs[0], kc, vc)
    } else {
        kvs_text(kvs.drop_last(), kc, vc) + " , "@ + kv_text(kvs.last(), kc, vc)
    }
}

/// The pairs of a record as text.
pub open spec fn item_kvs(item: &LogItem) -> Seq<(Seq<char>, Seq<char>)> {
    item.kvs@.map_values(|p: (String, String)| (p.0@, p.1@))
}

/// The line of `item` with time `time`: `[LEVEL] time (file:line) message`,
/// then ` { key: value , ... }` when there are pairs, then `\r\n`; the
/// level and message in the level's colour, the rest in their own.
pub open spec fn rendered_line(item: &LogItem, c: LineColors, time: Seq<char>) -> Seq<char> {
    colored("["@ + item.level@ + "]"@, c.level) + " "@ + colored(time, c.time) + " ("@ + colored(
        item.file@,
        c.file,
    ) + ":"@ + colored(decimal(item.line as nat), c.line) + ") "@ + colored(item.msg@, c.level) + if item.kvs@.len()
        == 0 {
        "\r\n"@
    } else {
        " { "@ + kvs_text(item_kvs(item), c.key, c.level) + " }\r\n"@
    }
}

/// Appends `txt` in colour `c`; see [`colored`].
fn push_colored(line: &mut String, txt: &str, c: Option<Color>)
    ensures
        final(line)@ == old(line)@ + colored(txt@, c),
{
    match c {
        Some(col) => {
            if col.block {
                line.append(txt);
                return;
            }
            let r = usize_to_string(col.red as usize);
            let g = usize_to_string(col.green as usize);
            let b = usize_to_string(col.blue as usize);
            push_char(line, '\u{1b}');
            line.append("[38;2;");
            line.append(r.as_str());
            line.append(";");
            line.append(g.as_str());
            line.append(";");
            line.append(b.as_str());
            line.append("m");
            line.append(txt);
            push_char(line, '\u{1b}');
            line.append("[0m");
            assert(line@ =~= old(line)@ + colored(txt@, c));
        },
        None => {
            line.append(txt);
        },
    }
}

impl<S> ColorfulLineRenderer<S> {
    /// Appends the line of `item` to `out`, as UTF-8; see [`rendered_line`].
    /// `time` is the record's time, laid out by [`Self::time_layout`].
    pub fn render(&self, item: &LogItem, colors: LineColors, time: &str, out: &mut Vec<u8>)
        ensures
            final(out)@ == old(out)@ + encode_utf8(rendered_line(item, colors, time@)),
    {
        let mut line = String::new();
        let mut level = String::new();
        level.append("[");
        level.append(item.level.as_str());
        level.append("]");
        push_colored(&mut line, level.as_str(), colors.level);
        line.append(" ");
        push_colored(&mut line, time, colors.time);
        line.append(" (");
        push_colored(&mut line, item.file.as_str(), colors.file);
        line.append(":");
        let ln = usize_to_string(item.line as usize);
        push_colored(&mut line, ln.as_str(), colors.line);
        line.append(") ");
        push_colored(&mut line, item.msg.as_str(), colors.level);
        if item.kvs.len() == 0 {
            line.append("\r\n");
        } else {
            line.append(" { ");
            let ghost kvs = item_kvs(item);
            let ghost start = line@;
            let mut i: usize = 0;
            while i < item.kvs.len()
                invariant
                    i <= item.kvs.len(),
                    kvs == item_kvs(item),
                    item.kvs.len() > 0,
                    line@ == start + kvs_text(kvs.take(i as int), colors.key, colors.level),
                decreases item.kvs.len() - i,
            {
                if i > 0 {
                    line.append(" , ");
                }
                push_colored(&mut line, item.kvs[i].0.as_str(), colors.key);
                line.append(": ");
                push_colored(&mut line, item.kvs[i].1.as_str(), colors.level);
                proof {
                    assert(kvs[i as int] == (item.kvs@[i as int].0@, item.kvs@[i as int].1@));
                    assert(kvs.take(i + 1).drop_last() =~= kvs.take(i as int));
                    assert(kvs.take(i + 1).last() == kvs[i as int]);
                    if i == 0 {
                        assert(kvs.take(0) =~= Seq::<(Seq<char>, Seq<char>)>::empty());
                    }
                    assert(line@ =~= start + kvs_text(kvs.take(i + 1), colors.key, colors.level));
                }
                i += 1;
            }
            assert(kvs.take(item.kvs.len() as int) =~= kvs);
            line.append(" }\r\n");
        }
        assert(line@ =~= rendered_line(item, colors, time@));
        let bytes = line.as_str().as_bytes();
        let mut i: usize = 0;
        let ghost o = out@;
        while i < bytes.len()
            invariant
                i <= bytes.len(),
                out@ == o + bytes@.take(i as int),
            decreases bytes.len() - i,
        {
            out.push(bytes[i]);
            assert(bytes@.take(i + 1) =~= bytes@.take(i as int).push(bytes@[i as int]));
            i += 1;
        }
        assert(bytes@.take(bytes.len() as int) =~= bytes@);
    }
}

} // verus!
