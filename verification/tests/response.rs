use aegis::response::{decimal_string, Response};
use aegis::status::HttpStatus;

#[test]
fn test_response_build_basic() {
    let response = Response::ok().body(b"Hello Aegis".to_vec());

    let raw = response.build();
    let s = String::from_utf8(raw).unwrap();

    assert!(s.starts_with("HTTP/1.1 200 OK\r\n"));
    assert!(s.contains("Server: Aegis/0.1\r\n"));
    assert!(s.contains("Content-Length: 11\r\n"));
    assert!(s.contains("\r\n\r\nHello Aegis"));
}

#[test]
fn test_custom_headers() {
    let response = Response::new(HttpStatus::NotFound)
        .header("X-Custom", "TestValue")
        .body(vec![]);

    let raw = response.build();
    let s = String::from_utf8(raw).unwrap();

    assert!(s.starts_with("HTTP/1.1 404 Not Found\r\n"));
    assert!(s.contains("X-Custom: TestValue\r\n"));
    assert!(s.contains("Content-Length: 0\r\n"));
}

#[test]
fn test_empty_body() {
    let raw = Response::ok().build();
    let s = String::from_utf8(raw).unwrap();

    assert!(s.ends_with("\r\n\r\n"));
}

#[test]
fn test_crlf_structure() {
    let raw = Response::ok().body(b"abc".to_vec()).build();

    let raw_str = String::from_utf8(raw.clone()).unwrap();

    assert!(raw_str.contains("\r\n\r\n"));

    let _parts: Vec<&[u8]> = raw.split(|&b| b == b'\r').collect();
    assert!(raw.ends_with(b"abc"));
}

#[test]
fn test_binary_body() {
    let body = vec![0, 159, 255, 88, 42];

    let raw = Response::ok().body(body.clone()).build();

    assert!(raw.ends_with(&body));
}

#[test]
fn test_content_length_overwrite() {
    let response = Response::ok()
        .header("Content-Length", "999")
        .body(b"abc".to_vec());

    let raw = String::from_utf8(response.build()).unwrap();

    assert!(raw.contains("Content-Length: 3\r\n"));
}

#[test]
fn test_server_header_present() {
    let raw = String::from_utf8(Response::ok().build()).unwrap();
    assert!(raw.contains("Server: Aegis/0.1\r\n"));
}

#[test]
fn test_status_line_exact() {
    let raw = Response::not_found().build();
    let raw_str = String::from_utf8(raw).unwrap();

    let first_line = raw_str.lines().next().unwrap();
    assert_eq!(first_line, "HTTP/1.1 404 Not Found");
}

#[test]
fn wire_bytes_are_exact() {
    let raw = Response::ok().body(b"hi".to_vec()).build();
    assert_eq!(
        raw,
        b"HTTP/1.1 200 OK\r\nServer: Aegis/0.1\r\nContent-Length: 2\r\n\r\nhi".to_vec()
    );
}

#[test]
fn wire_bytes_without_body_carry_a_zero_length() {
    let raw = Response::bad_request().build();
    assert_eq!(
        raw,
        b"HTTP/1.1 400 Bad Request\r\nServer: Aegis/0.1\r\nContent-Length: 0\r\n\r\n".to_vec()
    );
}

#[test]
fn content_length_set_after_the_body_is_recomputed() {
    let raw = Response::ok()
        .body(b"abc".to_vec())
        .header("Content-Length", "999")
        .build();
    assert_eq!(
        raw,
        b"HTTP/1.1 200 OK\r\nServer: Aegis/0.1\r\nContent-Length: 3\r\n\r\nabc".to_vec()
    );
}

#[test]
fn content_length_follows_a_body_that_was_replaced() {
    let mut response = Response::ok().body(b"abc".to_vec());
    response.body = b"abcdefghijkl".to_vec();
    let raw = String::from_utf8(response.build()).unwrap();
    assert!(raw.contains("Content-Length: 12\r\n"));
    assert!(!raw.contains("Content-Length: 3\r\n"));
}

#[test]
fn a_header_set_twice_keeps_its_place_and_takes_the_new_value() {
    let response = Response::ok()
        .header("X-A", "1")
        .header("X-B", "2")
        .header("X-A", "3");
    assert_eq!(
        response.headers,
        vec![
            ("Server".to_string(), "Aegis/0.1".to_string()),
            ("X-A".to_string(), "3".to_string()),
            ("X-B".to_string(), "2".to_string()),
        ]
    );
    let raw = response.build();
    assert_eq!(
        raw,
        b"HTTP/1.1 200 OK\r\nServer: Aegis/0.1\r\nX-A: 3\r\nX-B: 2\r\nContent-Length: 0\r\n\r\n"
            .to_vec()
    );
}

#[test]
fn header_names_are_told_apart_by_case() {
    let response = Response::ok().header("server", "mine");
    assert_eq!(response.headers.len(), 2);
    let replaced = Response::ok().header("Server", "mine");
    assert_eq!(
        replaced.headers,
        vec![("Server".to_string(), "mine".to_string())]
    );
}

#[test]
fn constructors_set_status_version_and_server() {
    let r = Response::new(HttpStatus::Created);
    assert_eq!(r.status, HttpStatus::Created);
    assert_eq!(r.version, "HTTP/1.1");
    assert!(r.body.is_empty());
    assert_eq!(
        r.headers,
        vec![("Server".to_string(), "Aegis/0.1".to_string())]
    );
    assert_eq!(Response::ok().status, HttpStatus::Okay);
    assert_eq!(Response::not_found().status, HttpStatus::NotFound);
    assert_eq!(Response::bad_request().status, HttpStatus::BadRequest);
}

#[test]
fn body_sets_content_length() {
    let r = Response::ok().body(vec![1u8; 120]);
    assert_eq!(r.body.len(), 120);
    assert_eq!(
        r.headers,
        vec![
            ("Server".to_string(), "Aegis/0.1".to_string()),
            ("Content-Length".to_string(), "120".to_string()),
        ]
    );
}

#[test]
fn version_and_non_ascii_text_go_out_as_utf8() {
    let mut r = Response::new(HttpStatus::NoContent).header("X-Name", "caf\u{e9}");
    r.version = "HTTP/1.0".to_string();
    let raw = r.build();
    let expected = "HTTP/1.0 204 No Content\r\nServer: Aegis/0.1\r\nX-Name: caf\u{e9}\r\nContent-Length: 0\r\n\r\n";
    assert_eq!(raw, expected.as_bytes().to_vec());
}

#[test]
fn numbers_in_decimal() {
    assert_eq!(decimal_string(0), "0");
    assert_eq!(decimal_string(7), "7");
    assert_eq!(decimal_string(10), "10");
    assert_eq!(decimal_string(1234567890), "1234567890");
    assert_eq!(decimal_string(usize::MAX), usize::MAX.to_string());
}

#[test]
fn status_codes_digits_and_texts() {
    let all = [
        (HttpStatus::Okay, 200u16, "200", "OK"),
        (HttpStatus::Created, 201, "201", "Created"),
        (HttpStatus::Accepted, 202, "202", "Accepted"),
        (HttpStatus::NoContent, 204, "204", "No Content"),
        (HttpStatus::BadRequest, 400, "400", "Bad Request"),
        (HttpStatus::Forbidden, 403, "403", "Forbidden"),
        (HttpStatus::NotFound, 404, "404", "Not Found"),
        (HttpStatus::PayloadTooLarge, 413, "413", "Payload Too Large"),
        (HttpStatus::InternalServerError, 500, "500", "Internal Server Error"),
        (HttpStatus::NotImplemented, 501, "501", "Not Implemented"),
    ];
    for (status, code, digits, text) in all {
        assert_eq!(status.code(), code);
        assert_eq!(status.as_bytes(), digits.as_bytes());
        assert_eq!(status.text(), text);
    }
}
