use aegis::content::ContentType;
use aegis::lines::{find_head_end, headers_to_meta, parse_content_length, parse_raw_headers};

fn pair(name: &[u8], value: &[u8]) -> (Vec<u8>, Vec<u8>) {
    (name.to_vec(), value.to_vec())
}

#[test]
fn header_block_is_read_line_by_line() {
    let headers = parse_raw_headers(b"GET / HTTP/1.1\r\nHost: x\r\nContent-Length: 5");
    assert_eq!(
        headers,
        vec![pair(b"Host", b" x"), pair(b"Content-Length", b" 5")]
    );
}

#[test]
fn header_lines_edge_cases() {
    assert_eq!(parse_raw_headers(b""), Vec::<(Vec<u8>, Vec<u8>)>::new());
    assert_eq!(parse_raw_headers(b"no colon here\r\n"), Vec::<(Vec<u8>, Vec<u8>)>::new());
    assert_eq!(parse_raw_headers(b":"), vec![pair(b"", b"")]);
    assert_eq!(parse_raw_headers(b"a:b:c"), vec![pair(b"a", b"b:c")]);
    assert_eq!(parse_raw_headers(b"a:b\n\nc:d\n"), vec![pair(b"a", b"b"), pair(b"c", b"d")]);
    assert_eq!(parse_raw_headers(b"a:b\r\r\n"), vec![pair(b"a", b"b\r")]);
    assert_eq!(parse_raw_headers(b"a:\r"), vec![pair(b"a", b"")]);
    assert_eq!(parse_raw_headers(b"\r\na:1\r\n"), vec![pair(b"a", b"1")]);
}

#[test]
fn content_length_with_spaces() {
    assert_eq!(parse_content_length(b" 1 2 3 "), Some(123));
    assert_eq!(parse_content_length(b"42"), Some(42));
    assert_eq!(parse_content_length(b""), Some(0));
    assert_eq!(parse_content_length(b"   "), Some(0));
    assert_eq!(parse_content_length(b"12a"), None);
    assert_eq!(parse_content_length(b"+5"), None);
    assert_eq!(parse_content_length(b"\t5"), None);
    assert_eq!(parse_content_length(b"0007"), Some(7));
}

#[test]
fn content_length_that_does_not_fit_is_refused() {
    let max = usize::MAX.to_string();
    assert_eq!(parse_content_length(max.as_bytes()), Some(usize::MAX));
    let mut over = max.clone().into_bytes();
    let last = over.len() - 1;
    over[last] += 1;
    assert_eq!(parse_content_length(&over), None);
    let longer = format!("{}0", max);
    assert_eq!(parse_content_length(longer.as_bytes()), None);
    let then_garbage = format!("{}0x", max);
    assert_eq!(parse_content_length(then_garbage.as_bytes()), None);
}

#[test]
fn meta_from_raw_headers() {
    let headers = parse_raw_headers(
        b"POST /x HTTP/1.1\r\ncontent-LENGTH: 1 0\r\nContent-Type: Text/Plain\r\nTransfer-Encoding: gzip, chunked\r\n",
    );
    let meta = headers_to_meta(&headers);
    assert_eq!(meta.content_length, Some(10));
    assert_eq!(meta.content_type, Some(ContentType::Text));
    assert!(meta.is_chunked);
}

#[test]
fn meta_from_raw_headers_last_wins() {
    let headers = vec![
        pair(b"Content-Length", b"100"),
        pair(b"content-length", b"200"),
        pair(b"Content-Type", b"text/plain"),
        pair(b"Content-Type", b"application/json"),
    ];
    let meta = headers_to_meta(&headers);
    assert_eq!(meta.content_length, Some(200));
    assert_eq!(meta.content_type, Some(ContentType::Json));
    assert!(!meta.is_chunked);
    let none = headers_to_meta(&Vec::new());
    assert_eq!(none.content_length, None);
    assert!(none.content_type.is_none());
}

#[test]
fn end_of_head_is_the_first_blank_line() {
    assert_eq!(find_head_end(b"GET / HTTP/1.1\r\nHost: x\r\n\r\nbody\r\n\r\n"), Some(23));
    assert_eq!(find_head_end(b"\r\n\r\n"), Some(0));
    assert_eq!(find_head_end(b"\r\n\r"), None);
    assert_eq!(find_head_end(b""), None);
    assert_eq!(find_head_end(b"a\n\nb\r\n\n\r\n"), None);
    assert_eq!(find_head_end(b"a\r\r\n\r\n"), Some(2));
}
