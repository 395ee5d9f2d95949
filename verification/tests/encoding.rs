use flate2::read::GzDecoder;
use http_server::encoding::{apply_gzip, encode_content, wants_gzip};
use http_server::{compress, HttpResponse};
use std::io::Read;

fn gunzip(stream: &[u8]) -> Vec<u8> {
    let mut decoder = GzDecoder::new(stream);
    let mut data = Vec::new();
    decoder.read_to_end(&mut data).expect("no gzip stream");
    data
}

fn text_response(body: &[u8]) -> HttpResponse {
    let mut response = HttpResponse::ok();
    response.set_header("Content-Type".to_string(), "text/plain".to_string());
    response.set_header("Content-Length".to_string(), body.len().to_string());
    response.set_body(body.to_vec());
    response
}

fn header<'a>(response: &'a HttpResponse, name: &str) -> Option<&'a str> {
    response.headers.get(name).map(|value| value.as_str())
}

#[test]
fn negotiation_looks_for_the_letters() {
    assert!(wants_gzip(Some(&"gzip".to_string())));
    assert!(wants_gzip(Some(&"deflate, gzip, br".to_string())));
    assert!(wants_gzip(Some(&"gzip;q=0".to_string())));
    assert!(wants_gzip(Some(&"x-gzipped".to_string())));
    assert!(!wants_gzip(Some(&"deflate".to_string())));
    assert!(!wants_gzip(Some(&"GZIP".to_string())));
    assert!(!wants_gzip(Some(&"".to_string())));
    assert!(!wants_gzip(None));
}

#[test]
fn compress_replaces_the_body_with_a_gzip_stream() {
    let body = b"something something something something".to_vec();
    let mut response = text_response(&body);
    assert!(compress(&mut response, Some(&"gzip".to_string())).is_ok());
    assert_eq!(response.status_code, 200);
    assert_eq!(header(&response, "Content-Encoding"), Some("gzip"));
    assert_eq!(header(&response, "Content-Type"), Some("text/plain"));
    let declared: usize = header(&response, "Content-Length").unwrap().parse().unwrap();
    assert_eq!(declared, response.body.len());
    assert_ne!(response.body, body);
    assert_eq!(&response.body[..2], &[0x1f, 0x8b]);
    assert_eq!(gunzip(&response.body), body);
    assert_eq!(response.headers.len(), 3);
}

#[test]
fn compress_without_gzip_changes_nothing() {
    let body = b"plain".to_vec();
    for accept in [None, Some("identity".to_string()), Some("deflate".to_string())] {
        let mut response = text_response(&body);
        assert!(compress(&mut response, accept.as_ref()).is_ok());
        assert_eq!(response.body, body);
        assert_eq!(header(&response, "Content-Encoding"), None);
        assert_eq!(header(&response, "Content-Length"), Some("5"));
        assert_eq!(response.headers.len(), 2);
    }
}

#[test]
fn compress_an_empty_body() {
    let mut response = HttpResponse::not_found();
    assert!(compress(&mut response, Some(&"gzip".to_string())).is_ok());
    assert_eq!(response.status_code, 404);
    assert_eq!(header(&response, "Content-Encoding"), Some("gzip"));
    let declared: usize = header(&response, "Content-Length").unwrap().parse().unwrap();
    assert_eq!(declared, response.body.len());
    assert!(declared > 0);
    assert_eq!(gunzip(&response.body), Vec::<u8>::new());
}

#[test]
fn compress_binary_data() {
    let body: Vec<u8> = (0..5000u32).map(|i| (i * 31 % 251) as u8).collect();
    let mut response = HttpResponse::ok();
    response.set_body(body.clone());
    assert!(encode_content(&mut response, true).is_ok());
    assert_eq!(gunzip(&response.body), body);
    assert_eq!(header(&response, "Content-Length").unwrap(), response.body.len().to_string());
}

#[test]
fn encode_content_without_gzip_changes_nothing() {
    let mut response = text_response(b"abc");
    assert!(encode_content(&mut response, false).is_ok());
    assert_eq!(response.body, b"abc".to_vec());
    assert_eq!(response.headers.len(), 2);
}

#[test]
fn apply_gzip_sets_the_fields() {
    let mut response = text_response(b"abcdef");
    apply_gzip(&mut response, vec![1, 2, 3]);
    assert_eq!(response.body, vec![1, 2, 3]);
    assert_eq!(header(&response, "Content-Encoding"), Some("gzip"));
    assert_eq!(header(&response, "Content-Length"), Some("3"));
    assert_eq!(header(&response, "Content-Type"), Some("text/plain"));
    assert_eq!(
        response.encode(),
        b"HTTP/1.1 200 OK\r\nContent-Type: text/plain\r\nContent-Length: 3\r\nContent-Encoding: gzip\r\n\r\n\x01\x02\x03"
            .to_vec()
    );
}

#[test]
fn compressing_twice_needs_two_passes_to_undo() {
    let body = b"once only".to_vec();
    let mut response = text_response(&body);
    compress(&mut response, Some(&"gzip".to_string())).unwrap();
    let once = response.body.clone();
    compress(&mut response, Some(&"gzip".to_string())).unwrap();
    assert_eq!(gunzip(&response.body), once);
    assert_ne!(gunzip(&response.body), body);
    assert_eq!(gunzip(&gunzip(&response.body)), body);
}

#[test]
fn the_stream_hangs_on_the_body_alone() {
    let body = b"the same bytes in, the same bytes out".to_vec();
    let mut first = text_response(&body);
    let mut second = HttpResponse::not_found();
    second.set_body(body.clone());
    compress(&mut first, Some(&"gzip".to_string())).unwrap();
    encode_content(&mut second, true).unwrap();
    assert_eq!(first.body, second.body);
    let mut other = text_response(b"other bytes");
    compress(&mut other, Some(&"gzip".to_string())).unwrap();
    assert_ne!(first.body, other.body);
}
