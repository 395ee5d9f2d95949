use http_server::HttpResponse;

fn split(wire: &[u8]) -> (String, Vec<u8>) {
    let at = wire.windows(4).position(|w| w == b"\r\n\r\n").expect("no empty line");
    (String::from_utf8(wire[..at].to_vec()).unwrap(), wire[at + 4..].to_vec())
}

#[test]
fn constructors_set_the_status() {
    assert_eq!(HttpResponse::new(302).status_code, 302);
    assert_eq!(HttpResponse::ok().status_code, 200);
    assert_eq!(HttpResponse::created().status_code, 201);
    assert_eq!(HttpResponse::not_found().status_code, 404);
    assert_eq!(HttpResponse::internal_server_error().status_code, 500);
    let fresh = HttpResponse::new(200);
    assert_eq!(fresh.headers.len(), 0);
    assert!(fresh.body.is_empty());
}

#[test]
fn reason_phrases() {
    assert_eq!(HttpResponse::new(200).reason(), "OK");
    assert_eq!(HttpResponse::new(201).reason(), "Created");
    assert_eq!(HttpResponse::new(404).reason(), "Not Found");
    assert_eq!(HttpResponse::new(500).reason(), "Internal Server Error");
    assert_eq!(HttpResponse::new(418).reason(), "Unknown");
    assert_eq!(HttpResponse::new(0).reason(), "Unknown");
}

#[test]
fn encode_bare_responses() {
    assert_eq!(HttpResponse::ok().encode(), b"HTTP/1.1 200 OK\r\n\r\n".to_vec());
    assert_eq!(HttpResponse::created().encode(), b"HTTP/1.1 201 Created\r\n\r\n".to_vec());
    assert_eq!(HttpResponse::not_found().encode(), b"HTTP/1.1 404 Not Found\r\n\r\n".to_vec());
    assert_eq!(
        HttpResponse::internal_server_error().encode(),
        b"HTTP/1.1 500 Internal Server Error\r\n\r\n".to_vec()
    );
    assert_eq!(HttpResponse::new(418).encode(), b"HTTP/1.1 418 Unknown\r\n\r\n".to_vec());
    assert_eq!(HttpResponse::new(65535).encode(), b"HTTP/1.1 65535 Unknown\r\n\r\n".to_vec());
}

#[test]
fn encode_headers_and_body() {
    let mut response = HttpResponse::ok();
    response.set_header("Content-Type".to_string(), "text/plain".to_string());
    response.set_header("Content-Length".to_string(), "3".to_string());
    response.set_body(b"abc".to_vec());
    assert_eq!(
        response.encode(),
        b"HTTP/1.1 200 OK\r\nContent-Type: text/plain\r\nContent-Length: 3\r\n\r\nabc".to_vec()
    );
}

#[test]
fn encode_keeps_the_body_as_it_is() {
    let mut response = HttpResponse::ok();
    response.set_body(vec![0, 255, 13, 10, 13, 10, 7]);
    let wire = response.encode();
    assert_eq!(&wire[..19], b"HTTP/1.1 200 OK\r\n\r\n");
    assert_eq!(&wire[19..], &[0, 255, 13, 10, 13, 10, 7]);
}

#[test]
fn set_header_overwrites() {
    let mut response = HttpResponse::ok();
    response.set_header("X-A".to_string(), "1".to_string());
    response.set_header("X-B".to_string(), "2".to_string());
    response.set_header("X-A".to_string(), "3".to_string());
    assert_eq!(response.headers.len(), 2);
    assert_eq!(response.headers.get("X-A").map(|v| v.as_str()), Some("3"));
    assert_eq!(response.headers.get("X-B").map(|v| v.as_str()), Some("2"));
    assert_eq!(response.encode(), b"HTTP/1.1 200 OK\r\nX-A: 3\r\nX-B: 2\r\n\r\n".to_vec());
}

#[test]
fn set_body_replaces_the_body_only() {
    let mut response = HttpResponse::ok();
    response.set_header("X-A".to_string(), "1".to_string());
    response.set_body(b"first".to_vec());
    response.set_body(b"second".to_vec());
    assert_eq!(response.body, b"second".to_vec());
    assert_eq!(response.status_code, 200);
    assert_eq!(response.headers.len(), 1);
}

#[test]
fn encoded_body_has_the_declared_length() {
    let mut response = HttpResponse::ok();
    let body = b"line one\r\n\r\nline two".to_vec();
    response.set_header("Content-Type".to_string(), "text/plain".to_string());
    response.set_header("Content-Length".to_string(), body.len().to_string());
    response.set_body(body.clone());
    let (head, rest) = split(&response.encode());
    assert_eq!(rest, body);
    let declared: usize = head
        .lines()
        .find_map(|line| line.strip_prefix("Content-Length: "))
        .unwrap()
        .parse()
        .unwrap();
    assert_eq!(declared, rest.len());
    assert_eq!(declared, 20);
}

#[test]
fn encode_non_ascii_header_value() {
    let mut response = HttpResponse::ok();
    response.set_header("X-Name".to_string(), "zoë".to_string());
    assert_eq!(response.encode(), "HTTP/1.1 200 OK\r\nX-Name: zoë\r\n\r\n".as_bytes().to_vec());
}

#[test]
fn a_lone_line_feed_in_a_value_does_not_move_the_body() {
    let mut response = HttpResponse::ok();
    response.set_header("X-Note".to_string(), "a\nb\rc\n".to_string());
    response.set_header("\rX".to_string(), "\r".to_string());
    response.set_header("Content-Length".to_string(), "4".to_string());
    response.set_body(b"\r\n\r\n".to_vec());
    let wire = response.encode();
    let at = wire.windows(4).position(|w| w == b"\r\n\r\n").unwrap();
    assert_eq!(&wire[at + 4..], b"\r\n\r\n");
    assert_eq!(
        &wire[..at],
        &b"HTTP/1.1 200 OK\r\nX-Note: a\nb\rc\n\r\n\rX: \r\r\nContent-Length: 4"[..]
    );
}

#[test]
fn a_line_end_in_a_value_moves_the_body() {
    let mut response = HttpResponse::ok();
    response.set_header("X-Note".to_string(), "a\r\n".to_string());
    response.set_body(b"body".to_vec());
    let wire = response.encode();
    let at = wire.windows(4).position(|w| w == b"\r\n\r\n").unwrap();
    assert_ne!(&wire[at + 4..], b"body");
}
