use httpd::http::body::{make_decoder, make_encoder, Body, BytesBuf, CompressionType};
use httpd::http::compress::CompressType;
use httpd::http::header::Header;
use httpd::http::http11::{can_keep_alive, check_preface_line, keep_connection};
use httpd::http::message::{Message, Read11Plan, Read11Progress, Read11State};
use httpd::http::Headers;

fn read11(m: &mut Message, parts: &[&[u8]]) -> u32 {
    let mut st = Read11State::Method;
    for p in parts {
        match m.readfrom11_step(st, Some(p)) {
            Read11Progress::Next(s) => st = s,
            Read11Progress::Finished(c) => return c,
        }
    }
    panic!("message not finished");
}

#[test]
fn request_with_length_is_read() {
    let mut m = Message::new();
    let code = read11(
        &mut m,
        &[b"get ", b"/a ", b"HTTP/1.1 \r\n", b"Content-Length: 5\r\n", b"X-A:  1\r\n", b"\r\n", b"hel", b"lo"],
    );
    assert_eq!(code, 0);
    assert_eq!(m.fl.0, "GET");
    assert_eq!(m.fl.1, "/a");
    assert_eq!(m.fl.2, "HTTP/1.1");
    assert_eq!(m.header.get("x-a").map(|s| s.as_str()), Some("1"));
    assert_eq!(m.body.as_ref().unwrap().bytes(), b"hello");
}

#[test]
fn request_without_body_ends_at_the_empty_line() {
    let mut m = Message::new();
    assert_eq!(read11(&mut m, &[b"GET ", b" ", b"HTTP/1.0\r\n", b"\r\n"]), 0);
    assert_eq!(m.fl.1, "/");
    assert!(m.body.is_none());
}

#[test]
fn chunked_request_reads_chunks_of_the_first_size() {
    let mut m = Message::new();
    let mut st = Read11State::Method;
    for p in [&b"POST "[..], b"/ ", b"HTTP/1.1\r\n", b"Transfer-Encoding: chunked\r\n", b"\r\n", b"3\r\n", b"abc", b"\r\n", b"def", b"\r\n"] {
        match m.readfrom11_step(st, Some(p)) {
            Read11Progress::Next(s) => st = s,
            Read11Progress::Finished(c) => panic!("finished early with {}", c),
        }
    }
    assert_eq!(st, Read11State::ChunkData(3, 3));
    assert_eq!(m.body.as_ref().unwrap().bytes(), b"abcdef");
    assert_eq!(m.readfrom11_step(Read11State::LastChunkEnd, Some(b"\r\n")), Read11Progress::Finished(0));
    assert_eq!(m.readfrom11_step(Read11State::ChunkEnd(3), Some(b"x")), Read11Progress::Finished(400));
}

#[test]
fn bad_requests() {
    let mut m = Message::new();
    assert_eq!(m.readfrom11_step(Read11State::Method, Some(b" ")), Read11Progress::Finished(1));
    assert_eq!(m.readfrom11_step(Read11State::Method, None), Read11Progress::Finished(400));
    assert_eq!(m.readfrom11_step(Read11State::Method, Some(b"\xff\xfe ")), Read11Progress::Finished(400));
    assert_eq!(m.readfrom11_step(Read11State::HeaderLine, Some(b": v\r\n")), Read11Progress::Finished(400));
    assert_eq!(m.readfrom11_step(Read11State::ChunkSize, Some(b"q\r\n")), Read11Progress::Finished(400));
    let mut bad_len = Message::new();
    bad_len.header.add("content-length", "abc");
    assert_eq!(bad_len.readfrom11_step(Read11State::HeaderLine, Some(b"\r\n")), Read11Progress::Finished(400));
    assert_eq!(Read11State::Body(10).plan(4), Read11Plan::Exact(4));
    assert_eq!(Read11State::Method.plan(4), Read11Plan::Until { delim: b' ', limit: 30 });
}

#[test]
fn head_is_written_with_length_and_date() {
    let mut m = Message::new();
    m.fl = ("HTTP/1.1".to_string(), "404".to_string(), "Not Found".to_string());
    let head = m.head_with_date("Thu, 01 Jan 1970 00:00:00 GMT");
    let text = String::from_utf8(head).unwrap();
    assert!(text.starts_with("HTTP/1.1 404 Not Found\r\n"));
    assert!(text.contains("content-length: 0\r\n"));
    assert!(text.contains("server: httpd.rs\r\n"));
    assert!(text.contains("date: Thu, 01 Jan 1970 00:00:00 GMT\r\n"));
    assert!(text.ends_with("\r\n\r\n"));

    let mut d = Message::new();
    let head = String::from_utf8(d.writeto11_head()).unwrap();
    assert!(head.starts_with("HTTP/1.1 200 OK\r\n"));
}

#[test]
fn outgoing_body_is_compressed_on_flush() {
    let mut m = Message::new();
    m.set_content_encoding(CompressionType::Gzip, true);
    assert_eq!(m.header.get("content-encoding").map(|s| s.as_str()), Some("gzip"));
    let b = m.body.as_mut().unwrap();
    b.set_compression_type(CompressionType::Gzip);
    b.write(b"abcabcabc");
    assert_eq!(b.len(), 0);
    b.flush();
    assert_eq!(make_decoder(CompressionType::Gzip, b.bytes()), Some(b"abcabcabc".to_vec()));
}

#[test]
fn incoming_body_is_decompressed_on_read() {
    for ct in [CompressionType::Gzip, CompressionType::Deflate, CompressionType::Br] {
        let packed = make_encoder(ct, b"hello hello");
        assert_ne!(packed, b"hello hello".to_vec());
        let mut b = Body::new_for_incoming(16);
        b.set_compression_type(ct);
        b.write(&packed);
        let mut out = [0u8; 6];
        assert_eq!(b.read(&mut out), Ok(6));
        assert_eq!(&out, b"hello ");
        assert_eq!(b.read(&mut out), Ok(5));
        assert_eq!(&out[..5], b"hello");
        assert_eq!(b.read(&mut out), Ok(0));
    }
    let mut bad = Body::new_for_incoming(4);
    bad.set_compression_type(CompressionType::Gzip);
    bad.write(b"not gzip");
    let mut out = [0u8; 4];
    assert_eq!(bad.read(&mut out), Err(()));
}

#[test]
fn bytes_buffer_seeks() {
    let mut buf = BytesBuf::new();
    buf.write(b"abcdef");
    buf.rseek(4);
    let mut out = [0u8; 8];
    assert_eq!(buf.read(&mut out), 2);
    assert_eq!(&out[..2], b"ef");
    assert_eq!(buf.read(&mut out), 0);
}

#[test]
fn ensure_body_takes_the_coding() {
    let mut m = Message::new();
    m.header.add("Content-Encoding", "deflate");
    assert!(m.ensure_body(Some(8)));
    assert_eq!(m.body.as_ref().unwrap().get_compression_type(), Some(CompressionType::Deflate));
    let mut u = Message::new();
    u.header.add("content-encoding", "zstd");
    assert!(!u.ensure_body(None));
    assert_eq!(
        u.get_content_encoding(),
        Err("unsupported content encoding value, zstd".to_string())
    );
}

#[test]
fn keep_alive_after_version() {
    assert!(can_keep_alive("HTTP/1.0"));
    assert!(!can_keep_alive("HTTP/1.1"));
    assert!(!can_keep_alive("HTTP/0.0"));
    let close = "close".to_string();
    assert!(!keep_connection("HTTP/1.0", Some(&close)));
    assert!(keep_connection("HTTP/1.0", None));
    assert!(check_preface_line(0, "\r\n"));
    assert!(check_preface_line(1, "SM\r\n"));
    assert!(!check_preface_line(1, "XY\r\n"));
    assert!(!check_preface_line(2, "abc"));
}

#[test]
fn header_names_are_lower_cased() {
    let mut h = Header::new();
    h.add("Content-Length", "12");
    h.add("X-Multi", "a");
    h.add("x-multi", "b");
    assert!(h.contains("content-length"));
    assert_eq!(h.getall("X-MULTI").cloned(), Some(vec!["a".to_string(), "b".to_string()]));
    h.del("x-multi", Some("a"));
    assert_eq!(h.getall("x-multi").cloned(), Some(vec!["b".to_string()]));
    assert_eq!(h.get_content_length(), Ok(12));
    h.set_content_length(7);
    assert_eq!(h.get("content-length").map(|s| s.as_str()), Some("7"));
    assert!(h.is_chunked() == false);
    let mut bad = Header::new();
    bad.add("content-length", "-1");
    assert_eq!(bad.get_content_length(), Err("invalid digit found in string".to_string()));
    let mut enc = Header::new();
    enc.add("content-encoding", " , br");
    assert_eq!(enc.get_content_encoding(), Ok(Some(CompressionType::Br)));
}

#[test]
fn headers_collection() {
    let mut h = Headers::default();
    h.append("Accept-Encoding", "br, gzip");
    h.set_content_length(42);
    assert_eq!(h.content_length(), 42);
    h.set_content_type("text/plain");
    assert_eq!(h.content_type().map(|s| s.as_str()), Some("text/plain"));
    h.set_content_encoding(CompressType::Deflate);
    assert_eq!(h.content_encoding(), Some(CompressType::Deflate));
    assert_eq!(h.accept_encoding(), Some(CompressType::Gzip));
    h.append("transfer-encoding", "chunked");
    assert!(h.ischunked());
    h.remove("transfer-encoding");
    assert!(!h.contains("transfer-encoding"));
}
