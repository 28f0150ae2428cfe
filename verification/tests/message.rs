use httpd::message::{
    is_latin_1_graphic, BodyPlan, BodyProgress, ChunkProgress, ChunkState, Message,
    MessageReadCode, ReadPlan, ReadProgress, ReadState,
};
use httpd::protocols::Protocol;
use httpd::reqr::RequestReader;
use httpd::request::RequestQueryer;
use httpd::response::ResponseBuilder;
use httpd::respw::ResponseWriter;
use httpd::serve::{after_response, read_succeeded, ConnAction};
use httpd::services::fs::FsService;
use httpd::services::helloworld::HelloWorldService;
use httpd::ws_impl::{accept_key, upgrade};

fn read_head(m: &mut Message, parts: &[&[u8]], max_headers: usize) -> MessageReadCode {
    let mut state = ReadState::Start;
    let mut i = 0;
    loop {
        let data: Option<&[u8]> = if state == ReadState::HeadersDone {
            None
        } else {
            let d = parts[i];
            i += 1;
            Some(d)
        };
        match m.read_headers_step(state, data, max_headers) {
            ReadProgress::Next(s) => state = s,
            ReadProgress::Finished(c) => return c,
        }
    }
}

#[test]
fn head_is_read_word_by_word() {
    let mut m = Message::default();
    let code = read_head(
        &mut m,
        &[b"GET ", b"/index.html ", b"HTTP/1.1\r\n", b"Host: example.com\r\n", b"\r\n"],
        10,
    );
    assert_eq!(code, MessageReadCode::Success);
    assert_eq!(m.firstline.0, "GET");
    assert_eq!(m.firstline.1, "/index.html");
    assert_eq!(m.firstline.2, "HTTP/1.1");
    assert_eq!(m.headers.get("Host").map(|s| s.as_str()), Some("example.com"));
}

#[test]
fn header_without_colon_is_passed_over() {
    let mut m = Message::default();
    let code = read_head(&mut m, &[b"GET ", b"/ ", b"HTTP/1.1\r\n", b"junk\r\n", b"\r\n"], 10);
    assert_eq!(code, MessageReadCode::Success);
    assert_eq!(m.headers.len(), 0);
}

#[test]
fn header_with_empty_value_is_bad() {
    let mut m = Message::default();
    let code = read_head(&mut m, &[b"GET ", b"/ ", b"HTTP/1.1\r\n", b"a:\r\n"], 10);
    assert_eq!(code, MessageReadCode::BadDatagram);
}

#[test]
fn unprintable_byte_is_bad() {
    let mut m = Message::default();
    let code = read_head(&mut m, &[b"G\x01T ", b"/ "], 10);
    assert_eq!(code, MessageReadCode::BadDatagram);
}

#[test]
fn long_header_name_is_bad() {
    let mut line = vec![b'a'; 257];
    line.extend_from_slice(b": v\r\n");
    let mut m = Message::default();
    let code = read_head(&mut m, &[b"GET ", b"/ ", b"HTTP/1.1\r\n", &line], 10);
    assert_eq!(code, MessageReadCode::BadDatagram);
}

#[test]
fn no_header_allowed_at_zero() {
    let mut m = Message::default();
    let code = read_head(&mut m, &[b"GET ", b"/ ", b"HTTP/1.1\r\n", b"a: b\r\n"], 0);
    assert_eq!(code, MessageReadCode::ReachMaxHeadersCount);
}

#[test]
fn failed_read_is_a_connection_error() {
    let mut m = Message::default();
    assert_eq!(
        m.read_headers_step(ReadState::Start, None, 1),
        ReadProgress::Finished(MessageReadCode::ConnReadError)
    );
    assert_eq!(
        m.read_headers_step(ReadState::FirstLine1, Some(b"\r\n"), 1),
        ReadProgress::Finished(MessageReadCode::BadDatagram)
    );
}

#[test]
fn plans_follow_the_state() {
    assert_eq!(ReadState::Start.plan(64, 32), ReadPlan::Until { delim: b' ', limit: 128 });
    assert_eq!(ReadState::FirstLine0.plan(64, 32), ReadPlan::Until { delim: b' ', limit: 64 });
    assert_eq!(ReadState::FirstLine1.plan(64, 32), ReadPlan::Line { limit: 128 });
    assert_eq!(ReadState::FirstLine2.plan(64, 32), ReadPlan::Until { delim: b'\n', limit: 32 });
    assert_eq!(ReadState::HeadersDone.plan(64, 32), ReadPlan::Stop);
}

#[test]
fn latin_1_graphic_bytes() {
    assert!(is_latin_1_graphic(b' '));
    assert!(is_latin_1_graphic(b'~'));
    assert!(!is_latin_1_graphic(0x7f));
    assert!(!is_latin_1_graphic(0x9f));
    assert!(is_latin_1_graphic(0xa0));
    assert!(!is_latin_1_graphic(b'\t'));
}

#[test]
fn body_plans() {
    let mut m = Message::default();
    assert_eq!(m.body_plan(10), BodyPlan::Length(0));
    m.headers.append("content-length", "5");
    assert_eq!(m.body_plan(10), BodyPlan::Length(5));
    assert_eq!(m.body_plan(4), BodyPlan::Fail(MessageReadCode::ReachMaxBodySize));
    let mut bad = Message::default();
    bad.headers.append("content-length", "x");
    assert_eq!(bad.body_plan(10), BodyPlan::Fail(MessageReadCode::BadContentLength));
    assert_eq!(bad.get_content_length(), Err(()));
    let mut ch = Message::default();
    ch.headers.append("transfer-encoding", "gzip, chunked");
    assert_eq!(ch.body_plan(10), BodyPlan::Chunked);
}

#[test]
fn const_body_is_read_to_its_length() {
    let mut m = Message::default();
    assert_eq!(Message::body_read_len(5, 3), 3);
    assert_eq!(m.const_body_step(5, Some(b"abc")), BodyProgress::More(2));
    assert_eq!(m.const_body_step(2, Some(b"de")), BodyProgress::Finished(MessageReadCode::Success));
    assert_eq!(m.body.bytes(), b"abcde");
    assert_eq!(m.const_body_step(0, None), BodyProgress::Finished(MessageReadCode::Success));
    assert_eq!(m.const_body_step(1, None), BodyProgress::Finished(MessageReadCode::ConnReadError));
}

#[test]
fn chunked_body_reads_one_chunk() {
    let mut m = Message::default();
    let r = m.chunked_body_step(ChunkState::Size, 0, 100, Some(b" 4 \r\n"));
    assert_eq!(r, ChunkProgress::Next(ChunkState::Data(4), 4));
    let r = m.chunked_body_step(ChunkState::Data(4), 4, 100, Some(b"wiki"));
    assert_eq!(r, ChunkProgress::Next(ChunkState::Tail, 4));
    let r = m.chunked_body_step(ChunkState::Tail, 4, 100, Some(b"\r\n"));
    assert_eq!(r, ChunkProgress::Finished(MessageReadCode::Success));
    assert_eq!(m.body.bytes(), b"wiki");
    assert_eq!(
        m.chunked_body_step(ChunkState::Size, 0, 100, Some(b"zz\r\n")),
        ChunkProgress::Finished(MessageReadCode::BadChunkSize)
    );
    assert_eq!(
        m.chunked_body_step(ChunkState::Size, 90, 100, Some(b"11\r\n")),
        ChunkProgress::Finished(MessageReadCode::ReachMaxBodySize)
    );
}

#[test]
fn version_reads_the_major_number_twice() {
    let mut m = Message::default();
    m.firstline.2 = "HTTP/1.1".to_string();
    assert_eq!(RequestReader::from(&m).version(), Ok((1, 1)));
    m.firstline.2 = "http/2.0".to_string();
    assert_eq!(RequestReader::from(&m).version(), Ok((2, 2)));
    m.firstline.2 = "HTTP/1.0".to_string();
    assert_eq!(RequestReader::from(&m).version(), Ok((1, 1)));
    m.firstline.2 = "FTP/1.1".to_string();
    assert_eq!(RequestReader::from(&m).version(), Err(()));
    m.firstline.2 = "HTTP/11".to_string();
    assert_eq!(RequestReader::from(&m).version(), Err(()));
    m.firstline.2 = "HTTP/x.1".to_string();
    assert_eq!(RequestReader::from(&m).version(), Err(()));
    m.firstline.2 = "HTTP/256.1".to_string();
    assert_eq!(RequestReader::from(&m).version(), Err(()));
}

#[test]
fn writer_fills_the_first_line() {
    let mut w = ResponseWriter::from(Message::default());
    w.version(1, 1).code(404, "Not Found").header("server", "x");
    w.delheader("server");
    let m = w.end();
    assert_eq!(m.firstline.0, "HTTP/1.1");
    assert_eq!(m.firstline.1, "404");
    assert_eq!(m.firstline.2, "Not Found");
    assert!(m.headers.get("server").is_none());
}

#[test]
fn builder_fills_the_first_line() {
    let mut b = ResponseBuilder::new();
    b.with_code(200, "OK").with_version(1, 0).append_header("a", "b");
    let m = b.finish();
    assert_eq!(m.firstline.0, "200");
    assert_eq!(m.firstline.1, "OK");
    assert_eq!(m.firstline.2, "HTTP/1.0");
    assert_eq!(m.headers.get("a").map(|s| s.as_str()), Some("b"));
}

#[test]
fn websocket_accept_key_of_rfc_6455() {
    assert_eq!(accept_key("dGhlIHNhbXBsZSBub25jZQ=="), "s3pPLMBiTxaQ9kYGzzhZRbK+xOo=");
}

#[test]
fn websocket_upgrade() {
    let mut req = Message::default();
    req.headers.append("sec-websocket-key", "dGhlIHNhbXBsZSBub25jZQ==");
    let mut q = RequestQueryer::new(&req);
    let mut w = ResponseWriter::from(Message::default());
    assert_eq!(upgrade(&mut q, &mut w), Ok(true));
    let m = w.end();
    assert_eq!(m.firstline.0, "HTTP/1.1");
    assert_eq!(m.firstline.1, "101");
    assert_eq!(m.firstline.2, "Switching Protocols");
    assert_eq!(
        m.headers.get("sec-websocket-accept").map(|s| s.as_str()),
        Some("s3pPLMBiTxaQ9kYGzzhZRbK+xOo=")
    );
    assert_eq!(m.headers.get("upgrade").map(|s| s.as_str()), Some("websocket"));
    assert_eq!(m.headers.get("connection").map(|s| s.as_str()), Some("Upgrade"));

    let empty = Message::default();
    let mut q = RequestQueryer::new(&empty);
    let mut w = ResponseWriter::from(Message::default());
    assert_eq!(upgrade(&mut q, &mut w), Ok(false));
    assert_eq!(w.end().firstline.0, "");
}

static CONFIG: u8 = 0;

#[test]
fn hello_world_answers() {
    let s = HelloWorldService::new(&CONFIG);
    let mut req = Message::default();
    req.firstline.2 = "HTTP/1.1".to_string();
    let mut resp = Message::default();
    let p = s.http(&req, &mut resp);
    assert_eq!(p, Protocol::Current { keep_alive: true });
    assert_eq!(resp.firstline.0, "HTTP/1.1HTTP/1.1");
    assert_eq!(resp.firstline.1, "200");
    assert_eq!(resp.firstline.2, "OK");
    assert_eq!(resp.headers.get("server").map(|s| s.as_str()), Some("httpd.rs"));
    assert_eq!(resp.body.bytes(), b"Hello world!");

    req.firstline.2 = "HTTP/0.9".to_string();
    let mut resp = Message::default();
    assert_eq!(s.http(&req, &mut resp), Protocol::Current { keep_alive: false });
    req.firstline.2 = "garbage".to_string();
    let mut resp = Message::default();
    assert_eq!(s.http(&req, &mut resp), Protocol::Current { keep_alive: true });
    assert_eq!(resp.firstline.0, "HTTP/1.1");
    let f = FsService::new(&CONFIG);
    assert_eq!(f.http(&req, &mut resp), Protocol::Current { keep_alive: true });
}

#[test]
fn connection_actions() {
    assert_eq!(after_response(Protocol::Current { keep_alive: true }), ConnAction::Continue);
    assert_eq!(after_response(Protocol::Current { keep_alive: false }), ConnAction::Close);
    assert_eq!(after_response(Protocol::WebSocket), ConnAction::WebSocket);
    assert_eq!(after_response(Protocol::Http2), ConnAction::Http2);
    assert!(read_succeeded(MessageReadCode::Success));
    assert!(!read_succeeded(MessageReadCode::BadDatagram));
}
