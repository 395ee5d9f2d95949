use http_server::router::{file_read, file_written, settle};
use http_server::{handle_request, Dispatch, Headers, HttpError, HttpRequest, HttpResponse};
use http_server::{ReadReply, ServerConfig};

fn request(method: &str, path: &str) -> HttpRequest {
    HttpRequest {
        method: method.to_string(),
        path: path.to_string(),
        headers: Headers::new(),
        body: vec![],
    }
}

fn no_directory() -> ServerConfig {
    ServerConfig { static_directory: None }
}

fn directory(root: &str) -> ServerConfig {
    ServerConfig { static_directory: Some(root.to_string()) }
}

fn response_of(outcome: Result<Dispatch, HttpError>) -> HttpResponse {
    match outcome {
        Ok(Dispatch::Respond(response)) => response,
        other => panic!("no response: {:?}", other),
    }
}

fn header<'a>(response: &'a HttpResponse, name: &str) -> Option<&'a str> {
    response.headers.get(name).map(|value| value.as_str())
}

#[test]
fn tests_handle_request() {
    let actual = response_of(handle_request(
        &HttpRequest {
            body: vec![],
            path: "/".to_string(),
            method: "GET".to_string(),
            headers: Headers::new(),
        },
        &no_directory(),
    ))
    .status_code;
    assert_eq!(200, actual);

    let actual = response_of(handle_request(
        &HttpRequest {
            method: "GET".to_string(),
            path: "".to_string(),
            headers: Headers::new(),
            body: vec![],
        },
        &no_directory(),
    ))
    .status_code;
    assert_eq!(200, actual);

    let actual = response_of(handle_request(
        &HttpRequest {
            method: "GET".to_string(),
            path: "/something".to_string(),
            headers: Headers::new(),
            body: vec![],
        },
        &no_directory(),
    ))
    .status_code;
    assert_eq!(404, actual);

    let actual = response_of(handle_request(
        &HttpRequest {
            method: "GET".to_string(),
            path: "/something/something".to_string(),
            headers: Headers::new(),
            body: vec![],
        },
        &no_directory(),
    ))
    .status_code;
    assert_eq!(404, actual);

    let actual = response_of(handle_request(
        &HttpRequest {
            method: "GET".to_string(),
            path: "/echo/something".to_string(),
            headers: Headers::new(),
            body: vec![],
        },
        &no_directory(),
    ))
    .status_code;
    assert_eq!(200, actual);
}

#[test]
fn root_is_an_empty_ok() {
    let response = response_of(handle_request(&request("GET", "/"), &no_directory()));
    assert_eq!(response.status_code, 200);
    assert_eq!(response.headers.len(), 0);
    assert!(response.body.is_empty());
}

#[test]
fn echo_returns_the_second_segment() {
    let response = response_of(handle_request(&request("GET", "/echo/something"), &no_directory()));
    assert_eq!(response.status_code, 200);
    assert_eq!(response.body, b"something".to_vec());
    assert_eq!(header(&response, "Content-Length"), Some("9"));
    assert_eq!(header(&response, "Content-Type"), Some("text/plain"));
    assert_eq!(response.headers.len(), 2);
}

#[test]
fn echo_without_a_message_is_empty() {
    let response = response_of(handle_request(&request("GET", "/echo"), &no_directory()));
    assert_eq!(response.status_code, 200);
    assert!(response.body.is_empty());
    assert_eq!(header(&response, "Content-Length"), Some("0"));
}

#[test]
fn echo_counts_bytes_not_characters() {
    let response = response_of(handle_request(&request("GET", "/echo/héllo"), &no_directory()));
    assert_eq!(response.body, "héllo".as_bytes().to_vec());
    assert_eq!(header(&response, "Content-Length"), Some("6"));
}

#[test]
fn empty_segments_are_left_out() {
    let response = response_of(handle_request(&request("GET", "//echo///abc/"), &no_directory()));
    assert_eq!(response.status_code, 200);
    assert_eq!(response.body, b"abc".to_vec());
    let slashes = response_of(handle_request(&request("GET", "///"), &no_directory()));
    assert_eq!(slashes.status_code, 200);
    assert!(slashes.body.is_empty());
}

#[test]
fn user_agent_is_echoed() {
    let mut asked = request("GET", "/user-agent");
    asked.headers.insert("User-Agent".to_string(), "test-agent".to_string());
    let response = response_of(handle_request(&asked, &no_directory()));
    assert_eq!(response.status_code, 200);
    assert_eq!(response.body, b"test-agent".to_vec());
    assert_eq!(header(&response, "Content-Length"), Some("10"));
    assert_eq!(header(&response, "Content-Type"), Some("text/plain"));
}

#[test]
fn user_agent_missing_is_a_server_error() {
    let outcome = handle_request(&request("GET", "/user-agent"), &no_directory());
    assert!(matches!(outcome, Err(HttpError::MissingHeader)));
    let response = settle(Err(HttpError::MissingHeader));
    assert_eq!(response.status_code, 500);
    assert!(response.body.is_empty());
}

#[test]
fn user_agent_name_is_case_sensitive() {
    let mut asked = request("GET", "/user-agent");
    asked.headers.insert("user-agent".to_string(), "test-agent".to_string());
    assert!(matches!(handle_request(&asked, &no_directory()), Err(HttpError::MissingHeader)));
}

#[test]
fn files_without_a_directory_are_not_found() {
    let response =
        response_of(handle_request(&request("GET", "/files/missing.txt"), &no_directory()));
    assert_eq!(response.status_code, 404);
    let posted = response_of(handle_request(&request("POST", "/files/a.txt"), &no_directory()));
    assert_eq!(posted.status_code, 404);
}

#[test]
fn files_without_a_name_are_not_found() {
    let response = response_of(handle_request(&request("GET", "/files"), &directory("/tmp/")));
    assert_eq!(response.status_code, 404);
    let other = response_of(handle_request(&request("DELETE", "/files/"), &directory("/tmp/")));
    assert_eq!(other.status_code, 404);
}

#[test]
fn files_get_asks_for_the_joined_path() {
    match handle_request(&request("GET", "/files/report.txt"), &directory("/srv/data/")) {
        Ok(Dispatch::ReadFile { path }) => assert_eq!(path, "/srv/data/report.txt"),
        other => panic!("unexpected: {:?}", other),
    }
    match handle_request(&request("GET", "/files/report.txt"), &directory("/srv/data")) {
        Ok(Dispatch::ReadFile { path }) => assert_eq!(path, "/srv/datareport.txt"),
        other => panic!("unexpected: {:?}", other),
    }
}

#[test]
fn files_post_asks_to_write_the_body() {
    let mut asked = request("POST", "/files/report.txt");
    asked.body = b"quarterly".to_vec();
    match handle_request(&asked, &directory("/srv/data/")) {
        Ok(Dispatch::WriteFile { path, contents }) => {
            assert_eq!(path, "/srv/data/report.txt");
            assert_eq!(contents, b"quarterly".to_vec());
        }
        other => panic!("unexpected: {:?}", other),
    }
}

#[test]
fn files_other_method_is_unsupported() {
    let outcome = handle_request(&request("DELETE", "/files/report.txt"), &directory("/srv/"));
    assert!(matches!(outcome, Err(HttpError::UnsupportedMethod)));
    let lower = handle_request(&request("get", "/files/report.txt"), &directory("/srv/"));
    assert!(matches!(lower, Err(HttpError::UnsupportedMethod)));
    assert_eq!(settle(Err(HttpError::UnsupportedMethod)).status_code, 500);
}

#[test]
fn file_read_builds_the_response() {
    let found = file_read(ReadReply::Contents { size: 5, contents: b"hello".to_vec() }).unwrap();
    assert_eq!(found.status_code, 200);
    assert_eq!(found.body, b"hello".to_vec());
    assert_eq!(header(&found, "Content-Type"), Some("application/octet-stream"));
    assert_eq!(header(&found, "Content-Length"), Some("5"));

    let absent = file_read(ReadReply::Absent).unwrap();
    assert_eq!(absent.status_code, 404);
    assert!(absent.body.is_empty());

    assert!(matches!(file_read(ReadReply::Unreadable), Err(HttpError::IoFailure)));
    assert_eq!(settle(file_read(ReadReply::Unreadable)).status_code, 500);
}

#[test]
fn file_read_declares_the_size_that_was_reported() {
    let found =
        file_read(ReadReply::Contents { size: 1234567, contents: b"abc".to_vec() }).unwrap();
    assert_eq!(header(&found, "Content-Length"), Some("1234567"));
    assert_eq!(found.body, b"abc".to_vec());
}

#[test]
fn file_written_builds_the_response() {
    let created = file_written(true).unwrap();
    assert_eq!(created.status_code, 201);
    assert!(created.body.is_empty());
    assert_eq!(created.headers.len(), 0);
    assert!(matches!(file_written(false), Err(HttpError::IoFailure)));
    assert_eq!(settle(file_written(false)).status_code, 500);
}

#[test]
fn settle_keeps_a_response() {
    let response = settle(Ok(HttpResponse::not_found()));
    assert_eq!(response.status_code, 404);
}

#[test]
fn unknown_routes_are_not_found() {
    for path in ["/something", "/something/something", "/Echo/x", "/filesx/a", "/user-agent2"] {
        let response = response_of(handle_request(&request("GET", path), &directory("/tmp/")));
        assert_eq!(response.status_code, 404, "{}", path);
        assert!(response.body.is_empty());
    }
}
