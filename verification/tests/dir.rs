//! Requests to directory caches and what is made of the responses.

use async_compression::futures::bufread::{XzEncoder, ZlibEncoder, ZstdEncoder};
use futures::future::FutureExt;
use futures::io::AsyncReadExt;
use tor_js_gateway::dir::{
    content_encoding, decompress, get, request, status, take_header_line, DirError,
};

const CONTENT: &[u8] = b"directory document, directory document, directory document";

fn zlib(data: &[u8]) -> Vec<u8> {
    let mut out = Vec::new();
    ZlibEncoder::new(data).read_to_end(&mut out).now_or_never().unwrap().unwrap();
    out
}

fn xz(data: &[u8]) -> Vec<u8> {
    let mut out = Vec::new();
    XzEncoder::new(data).read_to_end(&mut out).now_or_never().unwrap().unwrap();
    out
}

fn zstd(data: &[u8]) -> Vec<u8> {
    let mut out = Vec::new();
    ZstdEncoder::new(data).read_to_end(&mut out).now_or_never().unwrap().unwrap();
    out
}

fn content(r: Result<Vec<u8>, DirError>) -> Vec<u8> {
    match r {
        Ok(v) => v,
        Err(_) => panic!("no content"),
    }
}

#[test]
fn a_request_is_http_1_0() {
    assert_eq!(
        request("/tor/keys/all", None),
        "GET /tor/keys/all HTTP/1.0\r\nAccept-Encoding: deflate, identity, x-tor-lzma, x-zstd\r\n\r\n"
    );
}

#[test]
fn a_request_for_a_diff_has_one_more_line() {
    assert_eq!(
        request("/tor/status-vote/current/consensus-microdesc", Some("0AF1")),
        "GET /tor/status-vote/current/consensus-microdesc HTTP/1.0\r\nAccept-Encoding: deflate, identity, x-tor-lzma, x-zstd\r\nX-Or-Diff-From-Consensus: 0AF1\r\n\r\n"
    );
}

#[test]
fn the_header_ends_at_a_blank_line_or_at_the_end() {
    let mut header = String::new();
    assert!(!take_header_line(&mut header, 17, "HTTP/1.0 200 OK\r\n"));
    assert!(!take_header_line(&mut header, 5, "a: b\n"));
    assert!(take_header_line(&mut header, 2, "\r\n"));
    assert_eq!(header, "HTTP/1.0 200 OK\r\na: b\n");
    assert!(take_header_line(&mut header, 1, "\n"));
    assert!(take_header_line(&mut header, 0, ""));
    assert!(!take_header_line(&mut header, 3, " \r\n"));
}

#[test]
fn the_status_is_the_second_word() {
    assert_eq!(status("HTTP/1.0 200 OK\r\n"), 200);
    assert_eq!(status("HTTP/1.0   404\tNot found\r\n"), 404);
    assert_eq!(status("HTTP/1.0 +7\n"), 7);
    assert_eq!(status("HTTP/1.0 65535"), 65535);
    assert_eq!(status("HTTP/1.0 65536"), 0);
    assert_eq!(status("HTTP/1.0 2x0"), 0);
    assert_eq!(status("HTTP/1.0"), 0);
    assert_eq!(status(""), 0);
    assert_eq!(status("\r\nHTTP/1.0 200 OK\r\n"), 0);
}

#[test]
fn the_encoding_is_in_the_first_line_that_has_one() {
    let first = "HTTP/1.0 200 OK\r\n";
    let of = |rest: &str| content_encoding(&format!("{}{}", first, rest));
    assert_eq!(of("Content-Encoding: deflate\r\n"), Some("deflate".to_string()));
    assert_eq!(of("A: b\r\n CONTENT-encoding \t:  x-zstd \r\n"), Some("x-zstd".to_string()));
    assert_eq!(
        of("Content-Encoding: a:b\r\nContent-Encoding: identity\r\n"),
        Some("a:b".to_string())
    );
    assert_eq!(of("Content-Type: text/plain\r\nno colon\r\n"), None);
    assert_eq!(content_encoding("Content-Encoding: deflate\r\n"), None);
    assert_eq!(content_encoding(""), None);
}

#[test]
fn a_body_is_decoded_by_its_encoding() {
    assert_eq!(content(decompress(None, CONTENT)), CONTENT);
    assert_eq!(content(decompress(Some("identity"), CONTENT)), CONTENT);
    assert_eq!(content(decompress(Some("deflate"), &zlib(CONTENT))), CONTENT);
    assert_eq!(content(decompress(Some("x-tor-lzma"), &xz(CONTENT))), CONTENT);
    assert_eq!(content(decompress(Some("x-zstd"), &zstd(CONTENT))), CONTENT);
}

#[test]
fn a_body_that_is_no_stream_of_its_encoding_is_an_error() {
    for (encoding, words) in
        [("deflate", "deflate decode"), ("x-tor-lzma", "xz decode"), ("x-zstd", "zstd decode")]
    {
        match decompress(Some(encoding), CONTENT) {
            Err(DirError::Decode(m, _)) => assert_eq!(m, words),
            _ => panic!("decoded as {}", encoding),
        }
    }
}

#[test]
fn an_unknown_encoding_is_an_error() {
    for encoding in ["gzip", "Deflate", ""] {
        match decompress(Some(encoding), CONTENT) {
            Err(DirError::Unsupported(m)) => {
                assert_eq!(m, format!("unsupported encoding: {}", encoding))
            }
            _ => panic!("decoded as {}", encoding),
        }
    }
}

#[test]
fn a_response_gives_its_decoded_body() {
    let header = "HTTP/1.0 200 OK\r\nContent-Encoding: deflate\r\n";
    assert_eq!(content(get("/tor/keys/all", header, &zlib(CONTENT))), CONTENT);
    assert_eq!(content(get("/tor/keys/all", "HTTP/1.0 200 OK\r\n", CONTENT)), CONTENT);
}

#[test]
fn another_status_than_200_is_an_error() {
    match get("/tor/keys/all", "HTTP/1.0 503 Busy\r\n", CONTENT) {
        Err(DirError::Status(m)) => assert_eq!(m, "GET /tor/keys/all returned status 503"),
        _ => panic!("taken for success"),
    }
    match get("/x", "", b"") {
        Err(DirError::Status(m)) => assert_eq!(m, "GET /x returned status 0"),
        _ => panic!("taken for success"),
    }
}
