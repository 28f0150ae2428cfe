use httpd::logging::colorful_line_renderer::ColorfulLineRendererBuilder;
use httpd::args::Args;
use httpd::http::ws_handler::WebSocketMessage;
use httpd::internal::header::contains;
use httpd::logging::colorful_line_renderer::{Color, ColorfulLineRenderer, LineColors, LogItem};
use httpd::middleware::FuncMiddleware;
use httpd::mux::{first_layer, next_layer};
use httpd::uri::ReadonlyUri;
use httpd::serve::{after_wait, decide_admission, may_shut_down, Admission};
use httpd::http::header::Header;

use httpd::text::{bytes_text, int_error_message, parse_usize, usize_to_string, IntErrorKind};
use httpd::uitls::multi_map::MultiMap;
use httpd::utils::auto_counter::AutoCounter;
use httpd::utils::mimes::{common_mime_types, mime_value, MimeTable};
use httpd::utils::time::{
    currentstr, default_time_string, parse_from_header_value, LocalClock, DEFAULT_TIME_LAYOUT,
};
use httpd::utils::MultiValuesMap;
use std::sync::atomic::{AtomicI64, Ordering};
use std::sync::Arc;

#[test]
fn append_keeps_earlier_values() {
    let mut m = MultiMap::new();
    m.append("a", "1");
    m.append("b", "2");
    m.append("a", "3");
    assert_eq!(m.getall("a").cloned(), Some(vec!["1".to_string(), "3".to_string()]));
    assert_eq!(m.get("b").map(|s| s.as_str()), Some("2"));
}

#[test]
fn append_after_delete_reuses_the_slot() {
    let mut m = MultiMap::new();
    m.append("a", "1");
    m.append("b", "2");
    m.delete("a");
    assert!(m.getall("a").is_none());
    m.append("b", "3");
    assert_eq!(m.getall("b").cloned(), Some(vec!["3".to_string()]));
}

#[test]
fn remove_drops_equal_values() {
    let mut m = MultiMap::new();
    m.append("a", "x");
    m.append("a", "y");
    m.append("a", "x");
    m.remove("a", "x");
    assert_eq!(m.getall("a").cloned(), Some(vec!["y".to_string()]));
    m.clear();
    assert_eq!(m.len(), 0);
}

#[test]
fn many_keys_move_into_the_keyed_map() {
    let mut m = MultiMap::new();
    for i in 0..40 {
        m.append(&format!("k{}", i), "v");
    }
    m.append("k3", "w");
    assert_eq!(m.getall("k3").cloned(), Some(vec!["v".to_string(), "w".to_string()]));
    m.delete("k3");
    assert!(m.getall("k3").is_none());
    assert_eq!(m.len(), 39);
}

#[test]
fn each_mut_stops_after_the_first_false() {
    for n in [3usize, 40] {
        let mut map = MultiMap::new();
        for i in 0..n {
            map.append(format!("k{}", i).as_str(), "v");
        }
        map.each_mut(|k, vs| {
            vs.push("seen".to_string());
            k != "k1"
        });
        assert_eq!(map.getall("k0").cloned(), Some(vec!["v".to_string(), "seen".to_string()]));
        assert_eq!(map.getall("k1").cloned(), Some(vec!["v".to_string(), "seen".to_string()]));
        assert_eq!(map.getall("k2").cloned(), Some(vec!["v".to_string()]));
    }
}

#[test]
fn header_values_contain() {
    let vs = vec!["gzip, chunked".to_string()];
    assert!(contains(Some(&vs), "chunked"));
    assert!(!contains(Some(&vs), "br"));
    assert!(!contains(None, "x"));
}

#[test]
fn multi_values_maps() {
    let mut m = MultiValuesMap::with_case(false);
    m.append("Key", "1");
    m.append("KEY", "2");
    assert_eq!(m.count("key"), 2);
    m.set("key", "3");
    assert_eq!(m.get_all("key").cloned(), Some(vec!["3".to_string()]));
    assert!(m.contains("key"));
    m.remove("key");
    assert!(!m.contains("key"));

    let mut r = httpd::multi_value_map::MultiValuesMap::new();
    r.append("A", "1");
    r.append("a", "2");
    assert_eq!(r.getall("a").cloned(), Some(vec!["1".to_string(), "2".to_string()]));
    r.set("a", "9");
    assert_eq!(r.get("a").map(|s| s.as_str()), Some("9"));
    assert_eq!(r.count("a"), 1);
}

#[test]
fn multi_values_map_looks_up_keys_as_given() {
    let mut m = MultiValuesMap::with_case(false);
    m.set("Content-Type", "text/plain");
    assert_eq!(m.get("content-type").map(|s| s.as_str()), Some("text/plain"));
    assert_eq!(m.get("Content-Type"), None);
    m.append("CONTENT-TYPE", "text/html");
    assert_eq!(m.count("content-type"), 2);
    let mut c = MultiValuesMap::with_case(true);
    c.append("Key", "v");
    assert_eq!(c.get("Key").map(|s| s.as_str()), Some("v"));
    assert_eq!(c.get("key"), None);
}

#[test]
fn text_helpers() {
    assert_eq!(parse_usize("+12"), Ok(12));
    assert_eq!(parse_usize(""), Err(IntErrorKind::Empty));
    assert_eq!(parse_usize("18446744073709551616"), Err(IntErrorKind::PosOverflow));
    assert_eq!(parse_usize("1a"), Err(IntErrorKind::InvalidDigit));
    assert_eq!(int_error_message(IntErrorKind::Empty), "cannot parse integer from empty string");
    assert_eq!(usize_to_string(1203), "1203");
    assert_eq!(bytes_text(&[0xe9]), "\u{e9}");
    assert_eq!(bytes_text("é".as_bytes()), "é");
}

#[test]
fn counter_counts_while_alive() {
    let n = Arc::new(AtomicI64::new(0));
    let c = AutoCounter::new(n.clone());
    assert_eq!(n.load(Ordering::SeqCst), 1);
    drop(c);
    assert_eq!(n.load(Ordering::SeqCst), 0);
}

#[test]
fn current_time_text() {
    let s = currentstr(None);
    assert_eq!(s.chars().count(), 26);
    for (i, ch) in s.chars().enumerate() {
        match i {
            4 | 7 => assert_eq!(ch, '-'),
            10 => assert_eq!(ch, ' '),
            13 | 16 => assert_eq!(ch, ':'),
            19 => assert_eq!(ch, '.'),
            _ => assert!(ch.is_ascii_digit()),
        }
    }
    let y = currentstr(Some("%Y"));
    assert_eq!(y.len(), 4);
    assert!(y.chars().all(|c| c.is_ascii_digit()));
}

#[test]
fn header_times_need_an_offset() {
    // chrono reads a time with `parse_from_str` only where the text gives an offset,
    // which none of the layouts asks for.
    assert_eq!(parse_from_header_value("Mon, 02 Jan 2006 15:04:05 GMT"), None);
    assert_eq!(parse_from_header_value(""), None);
    assert_eq!(parse_from_header_value("garbage"), None);
}

#[test]
fn small_types() {
    let a = Args::new("httpd.toml".to_string());
    assert_eq!(a.file, "httpd.toml");
    let m = FuncMiddleware::new(Some(1u8), None);
    assert_eq!(m.pre(), Some(&1u8));
    assert_eq!(m.post(), None);
    match WebSocketMessage::Text("hi".to_string()) {
        WebSocketMessage::Text(t) => assert_eq!(t, "hi"),
        _ => panic!("wrong variant"),
    }
}

#[test]
fn renderer_builder() {
    let r = ColorfulLineRendererBuilder::<u8>::new().finish();
    assert_eq!(r.name(), "ColorfulLineRenderer");
    assert_eq!(r.time_layout(), "%Y-%m-%d %H:%M:%S%.3f");
    let mut b = ColorfulLineRendererBuilder::<u8>::new();
    b.with_name("console").with_shceme(7).with_timelayout("%H");
    let r = b.finish();
    assert_eq!(r.name(), "console");
    assert_eq!(*r.scheme(), 7);
    assert_eq!(r.time_layout(), "%H");
}

#[test]
fn common_mime_types_by_extension() {
    let t = common_mime_types();
    assert_eq!(t.len(), 83);
    assert_eq!(t.get("jpg").map(|s| s.as_str()), Some("image/jpeg"));
    assert_eq!(t.get("jpeg").map(|s| s.as_str()), Some("image/jpeg"));
    assert_eq!(t.get("html").map(|s| s.as_str()), Some("text/html"));
    assert_eq!(t.get("ts").map(|s| s.as_str()), Some("video/mp2t"));
    assert_eq!(t.get("rs").map(|s| s.as_str()), Some("text/plain"));
    assert_eq!(t.get("toml").map(|s| s.as_str()), Some("application/toml"));
    assert_eq!(t.get(".html"), None);
    assert_eq!(t.get("HTML"), None);
}

#[test]
fn mime_values_and_tables() {
    assert_eq!(mime_value(" text/html; charset=utf-8"), "");
    assert_eq!(mime_value("text/html; charset=utf-8"), "text/html");
    assert_eq!(mime_value("a/b,c/d"), "a/b");
    let mut t = MimeTable::new();
    t.insert("x", "1");
    t.insert("x", "2");
    assert_eq!(t.len(), 1);
    assert_eq!(t.get("x").map(|s| s.as_str()), Some("2"));
}

fn clock(year: i32, month: u32, day: u32, hour: u32, minute: u32, second: u32, nanos: u32) -> LocalClock {
    LocalClock { millis: 0, year, month, day, hour, minute, second, nanos }
}

#[test]
fn default_time_text_matches_chrono() {
    let cases = [
        (2024, 3, 5, 7, 8, 9, 123_456_789),
        (1999, 12, 31, 23, 59, 59, 999_999_999),
        (2016, 12, 31, 23, 59, 59, 1_500_000_000),
        (99, 1, 1, 0, 0, 0, 0),
        (12345, 6, 7, 1, 2, 3, 4_000),
        (-1, 2, 3, 4, 5, 6, 7_000_000),
    ];
    for (y, mo, d, h, mi, s, n) in cases {
        let expected = chrono::NaiveDate::from_ymd_opt(y, mo, d)
            .unwrap()
            .and_hms_nano_opt(h, mi, s, n)
            .unwrap()
            .format(DEFAULT_TIME_LAYOUT)
            .to_string();
        assert_eq!(default_time_string(clock(y, mo, d, h, mi, s, n)), expected);
    }
    assert_eq!(default_time_string(clock(2024, 3, 5, 7, 8, 9, 123_456_789)), "2024-03-05 07:08:09.123456");
    assert_eq!(default_time_string(clock(2016, 12, 31, 23, 59, 59, 1_500_000_000)), "2016-12-31 23:59:60.500000");
    assert_eq!(default_time_string(clock(-1, 2, 3, 4, 5, 6, 0)), "-0001-02-03 04:05:06.000000");
}

#[test]
fn admission_rules() {
    assert_eq!(decide_admission(100, 100, 0, 0), Admission::Serve);
    assert_eq!(decide_admission(5, 3, 4, 2), Admission::Refuse);
    assert_eq!(decide_admission(4, 2, 4, 2), Admission::Wait);
    assert_eq!(decide_admission(3, 0, 4, 2), Admission::Serve);
    assert_eq!(decide_admission(10, 100, 4, 0), Admission::Wait);
    assert_eq!(after_wait(5, 4, 0, 3), Admission::Wait);
    assert_eq!(after_wait(4, 4, 0, 3), Admission::Serve);
    assert_eq!(after_wait(5, 4, 3, 3), Admission::Refuse);
    assert_eq!(after_wait(3, 4, 2, 3), Admission::Serve);
    assert_eq!(after_wait(5, 4, 1, 0), Admission::Refuse);
    assert!(may_shut_down(0));
    assert!(!may_shut_down(1));
}

#[test]
fn multi_values_map_default() {
    let mut m = MultiValuesMap::default();
    assert_eq!(m.len(), 0);
    m.append("Key", "v");
    assert_eq!(m.get("key").map(|s| s.as_str()), Some("v"));
}

#[test]
fn each_visits_in_order_and_stops_after_false() {
    let mut m = MultiMap::new();
    m.append("a", "1");
    m.append("b", "2");
    m.append("c", "3");
    let seen = std::cell::RefCell::new(Vec::new());
    m.each(|k, vs| {
        seen.borrow_mut().push((k.to_string(), vs.clone()));
        k != "b"
    });
    assert_eq!(
        seen.into_inner(),
        vec![("a".to_string(), vec!["1".to_string()]), ("b".to_string(), vec!["2".to_string()])]
    );
    assert_eq!(m.getall("c").cloned(), Some(vec!["3".to_string()]));
}

#[test]
fn header_each_visits_every_name() {
    let mut h = Header::new();
    let mut none = 0;
    h.each(|_, _| none += 1);
    assert_eq!(none, 0);
    h.add("X-A", "1");
    h.add("x-b", "2");
    h.add("X-A", "3");
    let mut seen = Vec::new();
    h.each(|k, vs| seen.push((k.clone(), vs.clone())));
    assert_eq!(
        seen,
        vec![
            ("x-a".to_string(), vec!["1".to_string(), "3".to_string()]),
            ("x-b".to_string(), vec!["2".to_string()]),
        ]
    );
}

#[test]
fn renders_a_log_line() {
    let r: ColorfulLineRenderer<()> = ColorfulLineRenderer::default();
    let lc = Some(Color { red: 1, green: 2, blue: 3, block: false });
    let colors = LineColors {
        level: lc,
        time: None,
        file: None,
        line: None,
        key: Some(Color { red: 9, green: 9, blue: 9, block: true }),
    };
    let item = LogItem {
        level: "INFO".to_string(),
        file: "a.rs".to_string(),
        line: 12,
        msg: "hi".to_string(),
        kvs: vec![("a".to_string(), "1".to_string()), ("b".to_string(), "x".to_string())],
    };
    let mut out = b"> ".to_vec();
    r.render(&item, colors, "T", &mut out);
    let expected = "> \x1b[38;2;1;2;3m[INFO]\x1b[0m T (a.rs:12) \x1b[38;2;1;2;3mhi\x1b[0m { a: \x1b[38;2;1;2;3m1\x1b[0m , b: \x1b[38;2;1;2;3mx\x1b[0m }\r\n";
    assert_eq!(String::from_utf8(out).unwrap(), expected);
    let plain = LogItem { level: "WARN".to_string(), file: "b.rs".to_string(), line: 7, msg: "m".to_string(), kvs: vec![] };
    let none = LineColors { level: None, time: None, file: None, line: None, key: None };
    let mut out = Vec::new();
    r.render(&plain, none, "T", &mut out);
    assert_eq!(String::from_utf8(out).unwrap(), "[WARN] T (b.rs:7) m\r\n");
}

#[test]
fn middleware_layers_in_order() {
    assert_eq!(first_layer(0), None);
    assert_eq!(first_layer(3), Some(0));
    assert_eq!(next_layer(0, 3, false), Some(1));
    assert_eq!(next_layer(2, 3, false), None);
    assert_eq!(next_layer(0, 3, true), None);
    assert_eq!(next_layer(5, 3, false), None);
}

#[test]
fn uri_parsability() {
    assert!(ReadonlyUri::new("http://user:pw@host:80/p?q#f").is_parsable());
    assert!(ReadonlyUri::new("").is_parsable());
    assert!(ReadonlyUri::new("/a/b").is_parsable());
    assert!(!ReadonlyUri::new("\u{e9}://x").is_parsable());
}

#[test]
fn header_names_are_blind_to_ascii_case() {
    let mut h = Header::new();
    h.set("Content-Type", "text/plain");
    assert_eq!(h.get("CONTENT-type").map(|s| s.as_str()), Some("text/plain"));
    assert!(h.contains("content-TYPE"));
}

