use httpd::http::body::{Body, BytesBuf, CompressionType};
use httpd::http::header::Header;
use httpd::logging::rotation_file_appender::{RotationFileAppender, RotationKind};
use httpd::uitls::multi_map::MultiMap;
use httpd::uri::{clean_path, Uri};
use std::io::Read;

fn read(header: &mut Header) {
    println!("{:?}", header.get("xxx"));
    println!("{:?}", header.get_content_length());
}

#[test]
fn test_header() {
    let mut header = Header::new();
    header.set("xxx", "yyy");
    header.set("Content-Length", "1203");
    read(&mut header);
    assert_eq!(header.get("xxx").map(|s| s.as_str()), Some("yyy"));
    assert_eq!(header.get_content_length(), Ok(1203));
}

#[test]
fn test_multi_map() {
    let mut map = MultiMap::new();

    let mut i = 0;
    loop {
        map.append(format!("k{}", i).as_str(), i.to_string().as_str());
        i += 1;
        if i > 40 {
            break;
        }
    }

    println!("{:?}", map);

    map.each_mut(|_k, vs| {
        vs.push("0.0".to_string());
        true
    });
    println!("{:?}", map);
    assert_eq!(map.len(), 41);
    assert_eq!(
        map.getall("k7").cloned(),
        Some(vec!["7".to_string(), "0.0".to_string()])
    );
}

#[test]
fn test_unsafe_steing() {
    let a = 00;
    let b = [0 as u8; 4096 * 10];
    let c = 00;
    println!("{:p} {:p} {:p}", &a, &b, &c);
}

#[test]
fn test_rotation_new() -> Result<(), String> {
    let _ = RotationFileAppender::new(RotationKind::Daily, 0, "../log/v.log", 8092, "")?;
    Ok(())
}

#[test]
fn safe_path() {
    let p = clean_path("~/../.\\\\./../././.a.r/key.txt/");
    println!("{}", p);
    assert_eq!(p, "/.a.r/key.txt/");
}

#[test]
fn uri_encode() {
    let e = Uri::encode("/我好".as_bytes());
    println!("{}", e);
    assert_eq!(e, "%2F%E6%88%91%E5%A5%BD");
}

#[test]
fn test_encode_gzip() {
    let input = "-----------hello world---------------";

    let mut body = Body::new_for_outgoing(1024);
    body.set_compression_type(CompressionType::Deflate);
    body.write(input.as_bytes());
    body.flush();

    let mut decoder = flate2::read::DeflateDecoder::new(body.bytes());
    let mut dest = String::new();
    decoder.read_to_string(&mut dest).unwrap();
    assert_eq!(input, dest.as_str());
}

#[test]
fn test_encode_br() {
    let input = "-----------hello world---------------";

    let mut body = Body::new_for_outgoing(1024);
    body.set_compression_type(CompressionType::Br);
    body.write(input.as_bytes());
    body.flush();

    let mut decoder = brotli2::read::BrotliDecoder::new(body.bytes());
    let mut out = Vec::new();
    decoder.read_to_end(&mut out).unwrap();
    let vs = String::from_utf8(out).unwrap();
    println!("{}", vs);
    assert_eq!(vs, input);
}

#[test]
fn test_read() {
    let mut buf = BytesBuf::new();
    buf.write("hello world!".as_bytes());
    let mut data = Vec::new();
    let mut chunk = [0u8; 5];
    loop {
        let n = buf.read(&mut chunk);
        if n == 0 {
            break;
        }
        data.extend_from_slice(&chunk[..n]);
    }
    println!("{}", String::from_utf8(data.clone()).unwrap());
    assert_eq!(data, b"hello world!".to_vec());
}

#[test]
fn x() {
    let tmp = "/";
    match tmp.find('/') {
        None => {}
        Some(idx) => {
            println!("{}", &tmp[0..idx + 1])
        }
    }
}
