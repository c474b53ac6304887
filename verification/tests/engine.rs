use aegis::content::ContentType;
use aegis::engine::{Engine, Event, Phase, Step, DEFAULT_VERSION};
use aegis::head::{HeadStatus, ParsedHead, MAX_HEADERS};
use aegis::meta::HeaderField;
use aegis::response::Response;

fn is_quiet(step: &Step) -> bool {
    step.event.is_none() && step.write.is_none()
}

fn is_disconnect(step: &Step) -> bool {
    matches!(step.event, Some(Event::Disconnect)) && step.write.is_none()
}

fn body_of(step: &Step) -> (Vec<u8>, bool) {
    match &step.event {
        Some(Event::RequestBody { body, more_body }) => (body.clone(), *more_body),
        other => panic!("expected a body event, got {:?}", other),
    }
}

#[test]
fn request_with_body_in_the_same_read() {
    let mut engine = Engine::new(1024);
    let step = engine.on_read(b"GET /a HTTP/1.1\r\nHost: x\r\nContent-Length: 5\r\n\r\nhello");
    assert!(step.write.is_none());
    match step.event {
        Some(Event::RequestStart { method, path, version, rest, meta }) => {
            assert_eq!(method, "GET");
            assert_eq!(path, "/a");
            assert_eq!(version, 1);
            assert_eq!(rest, b"hello".to_vec());
            assert_eq!(meta.content_length, Some(5));
            assert!(meta.content_type.is_none());
            assert!(!meta.is_chunked);
        }
        other => panic!("expected a request start, got {:?}", other),
    }
    assert_eq!(engine.phase(), Phase::AwaitingResponse);
    assert!(engine.awaits_reply());
    assert!(!engine.is_closed());
    assert_eq!(engine.body_received(), 5);
}

#[test]
fn dropped_reply_channel_closes_with_one_disconnect() {
    let mut engine = Engine::new(1024);
    let start = engine.on_read(b"GET / HTTP/1.1\r\n\r\n");
    assert!(matches!(start.event, Some(Event::RequestStart { .. })));
    let step = engine.on_reply(None);
    assert!(is_disconnect(&step));
    assert!(engine.is_closed());
    assert!(is_quiet(&engine.on_reply(None)));
    assert!(is_quiet(&engine.on_read(b"")));
    assert!(is_quiet(&engine.on_read(b"more")));
    assert!(is_quiet(&engine.abort()));
    assert!(engine.is_closed());
}

#[test]
fn client_that_closes_at_once_gets_one_disconnect() {
    let mut engine = Engine::new(1024);
    assert_eq!(engine.phase(), Phase::AwaitingHeaders);
    let step = engine.on_read(b"");
    assert!(is_disconnect(&step));
    assert_eq!(engine.phase(), Phase::Closed);
    assert!(is_quiet(&engine.on_read(b"")));
}

#[test]
fn head_in_pieces_then_body_in_pieces() {
    let mut engine = Engine::new(1024);
    assert!(is_quiet(&engine.on_read(b"POST /up HTT")));
    assert_eq!(engine.phase(), Phase::AwaitingHeaders);
    assert!(is_quiet(&engine.on_read(b"P/1.0\r\nContent-Type: text/plain\r\nContent-Le")));
    let start = engine.on_read(b"ngth: 10\r\n\r\nab");
    match start.event {
        Some(Event::RequestStart { method, path, version, rest, meta }) => {
            assert_eq!(method, "POST");
            assert_eq!(path, "/up");
            assert_eq!(version, 0);
            assert_eq!(rest, b"ab".to_vec());
            assert_eq!(meta.content_length, Some(10));
            assert_eq!(meta.content_type, Some(ContentType::Text));
        }
        other => panic!("expected a request start, got {:?}", other),
    }
    assert_eq!(engine.phase(), Phase::StreamingBody);
    assert_eq!(body_of(&engine.on_read(b"cde")), (b"cde".to_vec(), true));
    assert_eq!(engine.body_received(), 5);
    assert_eq!(body_of(&engine.on_read(b"fghi")), (b"fghi".to_vec(), true));
    assert_eq!(engine.phase(), Phase::StreamingBody);
    assert_eq!(body_of(&engine.on_read(b"j")), (b"j".to_vec(), false));
    assert_eq!(engine.phase(), Phase::AwaitingResponse);
    assert_eq!(engine.body_received(), 10);
}

#[test]
fn reply_is_written_and_the_connection_ends() {
    let mut engine = Engine::new(1024);
    engine.on_read(b"GET / HTTP/1.1\r\nContent-Length: 0\r\n\r\n");
    assert_eq!(engine.phase(), Phase::AwaitingResponse);
    let step = engine.on_reply(Some(Response::ok().body(b"hi".to_vec())));
    assert_eq!(
        step.write,
        Some(b"HTTP/1.1 200 OK\r\nServer: Aegis/0.1\r\nContent-Length: 2\r\n\r\nhi".to_vec())
    );
    assert!(matches!(step.event, Some(Event::Disconnect)));
    assert!(engine.is_closed());
    assert!(is_quiet(&engine.on_reply(Some(Response::ok()))));
}

#[test]
fn reply_may_come_while_the_body_streams() {
    let mut engine = Engine::new(1024);
    engine.on_read(b"PUT / HTTP/1.1\r\nContent-Length: 100\r\n\r\nabc");
    assert_eq!(engine.phase(), Phase::StreamingBody);
    assert!(engine.awaits_reply());
    let step = engine.on_reply(Some(Response::bad_request()));
    assert!(step.write.is_some());
    assert!(matches!(step.event, Some(Event::Disconnect)));
    assert!(engine.is_closed());
}

#[test]
fn reply_before_a_request_is_ignored() {
    let mut engine = Engine::new(1024);
    assert!(!engine.awaits_reply());
    assert!(is_quiet(&engine.on_reply(Some(Response::ok()))));
    assert!(is_quiet(&engine.on_reply(None)));
    assert_eq!(engine.phase(), Phase::AwaitingHeaders);
}

#[test]
fn head_over_the_limit_closes_without_request() {
    let mut engine = Engine::new(16);
    assert!(is_quiet(&engine.on_read(b"GET /0123456")));
    let step = engine.on_read(b"789ab");
    assert!(is_disconnect(&step));
    assert!(engine.is_closed());
}

#[test]
fn head_of_exactly_the_limit_is_taken() {
    let head = b"GET / HTTP/1.1\r\n\r\n";
    let mut engine = Engine::new(head.len());
    let step = engine.on_read(head);
    assert!(matches!(step.event, Some(Event::RequestStart { .. })));
    let mut smaller = Engine::new(head.len() - 1);
    assert!(is_disconnect(&smaller.on_read(head)));
}

#[test]
fn declared_length_over_the_limit_closes() {
    let mut engine = Engine::new(64);
    let step = engine.on_read(b"POST / HTTP/1.1\r\nContent-Length: 65\r\n\r\n");
    assert!(is_disconnect(&step));
    assert!(engine.is_closed());
    let mut at_limit = Engine::new(64);
    let step = at_limit.on_read(b"POST / HTTP/1.1\r\nContent-Length: 64\r\n\r\n");
    assert!(matches!(step.event, Some(Event::RequestStart { .. })));
    assert_eq!(at_limit.phase(), Phase::StreamingBody);
}

#[test]
fn streamed_body_over_the_limit_closes() {
    let mut engine = Engine::new(48);
    engine.on_read(b"POST / HTTP/1.1\r\nTransfer-Encoding: chunked\r\n\r\n");
    assert_eq!(engine.phase(), Phase::StreamingBody);
    assert_eq!(body_of(&engine.on_read(&[b'x'; 40])), (vec![b'x'; 40], true));
    assert_eq!(body_of(&engine.on_read(&[b'y'; 8])), (vec![b'y'; 8], true));
    assert_eq!(engine.body_received(), 48);
    let step = engine.on_read(b"z");
    assert!(is_disconnect(&step));
    assert!(engine.is_closed());
}

#[test]
fn malformed_head_closes() {
    let mut engine = Engine::new(1024);
    let step = engine.on_read(b"GET / HTTP/1.1\r\nBad Header\r\n\r\n");
    assert!(is_disconnect(&step));
    assert!(engine.is_closed());
}

#[test]
fn more_headers_than_allowed_close() {
    let mut text = String::from("GET / HTTP/1.1\r\n");
    for i in 0..MAX_HEADERS {
        text.push_str(&format!("X-{}: v\r\n", i));
    }
    let mut fits = Engine::new(1 << 16);
    let step = fits.on_read(format!("{}\r\n", text).as_bytes());
    assert!(matches!(step.event, Some(Event::RequestStart { .. })));
    let mut too_many = Engine::new(1 << 16);
    let step = too_many.on_read(format!("{}X-Last: v\r\n\r\n", text).as_bytes());
    assert!(is_disconnect(&step));
}

#[test]
fn body_without_length_or_chunking_is_refused() {
    let mut engine = Engine::new(1024);
    let step = engine.on_read(b"POST / HTTP/1.1\r\nHost: x\r\n\r\nbody");
    assert!(is_disconnect(&step));
    assert!(engine.is_closed());
}

#[test]
fn bytes_after_the_request_is_complete_are_refused() {
    let mut engine = Engine::new(1024);
    engine.on_read(b"GET / HTTP/1.1\r\nHost: x\r\n\r\n");
    assert_eq!(engine.phase(), Phase::AwaitingResponse);
    let step = engine.on_read(b"late");
    assert!(is_disconnect(&step));
    assert!(engine.is_closed());
}

#[test]
fn end_of_stream_closes_in_every_phase() {
    let mut streaming = Engine::new(1024);
    streaming.on_read(b"POST / HTTP/1.1\r\nContent-Length: 9\r\n\r\n");
    assert_eq!(streaming.phase(), Phase::StreamingBody);
    assert!(is_disconnect(&streaming.on_read(b"")));
    let mut waiting = Engine::new(1024);
    waiting.on_read(b"GET / HTTP/1.1\r\n\r\n");
    assert!(is_disconnect(&waiting.on_read(b"")));
    let mut partial = Engine::new(1024);
    partial.on_read(b"GET / HT");
    assert!(is_disconnect(&partial.on_read(b"")));
}

#[test]
fn abort_closes_once() {
    let mut engine = Engine::new(1024);
    assert!(is_disconnect(&engine.abort()));
    assert!(engine.is_closed());
    assert!(is_quiet(&engine.abort()));
}

#[test]
fn body_longer_than_declared_ends_the_body() {
    let mut engine = Engine::new(1024);
    engine.on_read(b"POST / HTTP/1.1\r\nContent-Length: 4\r\n\r\nab");
    assert_eq!(body_of(&engine.on_read(b"cdef")), (b"cdef".to_vec(), false));
    assert_eq!(engine.phase(), Phase::AwaitingResponse);
    assert_eq!(engine.body_received(), 6);
}

fn head(method: Option<&str>, path: Option<&str>, consumed: usize) -> HeadStatus {
    HeadStatus::Complete(ParsedHead {
        method: method.map(str::to_string),
        path: path.map(str::to_string),
        version: None,
        headers: vec![HeaderField::new("Content-Length", b"3")],
        consumed,
    })
}

#[test]
fn head_without_method_or_path_closes() {
    let mut no_method = Engine::new(1024);
    assert!(is_disconnect(&no_method.on_head(head(None, Some("/"), 0))));
    let mut no_path = Engine::new(1024);
    assert!(is_disconnect(&no_path.on_head(head(Some("GET"), None, 0))));
}

#[test]
fn head_that_claims_more_bytes_than_were_read_closes() {
    let mut engine = Engine::new(1024);
    assert!(is_disconnect(&engine.on_head(head(Some("GET"), Some("/"), 1))));
}

#[test]
fn head_without_version_takes_the_default() {
    let mut engine = Engine::new(1024);
    let step = engine.on_head(head(Some("GET"), Some("/x"), 0));
    match step.event {
        Some(Event::RequestStart { method, path, version, rest, meta }) => {
            assert_eq!(method, "GET");
            assert_eq!(path, "/x");
            assert_eq!(version, DEFAULT_VERSION);
            assert_eq!(version, 1);
            assert!(rest.is_empty());
            assert_eq!(meta.content_length, Some(3));
        }
        other => panic!("expected a request start, got {:?}", other),
    }
    assert_eq!(engine.phase(), Phase::StreamingBody);
}

#[test]
fn partial_and_malformed_heads() {
    let mut engine = Engine::new(1024);
    assert!(is_quiet(&engine.on_head(HeadStatus::Partial)));
    assert_eq!(engine.phase(), Phase::AwaitingHeaders);
    assert!(is_disconnect(&engine.on_head(HeadStatus::Malformed)));
    assert!(is_quiet(&engine.on_head(HeadStatus::Malformed)));
}

#[test]
fn head_is_ignored_once_the_request_has_started() {
    let mut engine = Engine::new(1024);
    engine.on_read(b"GET / HTTP/1.1\r\n\r\n");
    assert!(is_quiet(&engine.on_head(HeadStatus::Malformed)));
    assert_eq!(engine.phase(), Phase::AwaitingResponse);
}

#[test]
fn empty_lines_before_the_request_line_are_skipped() {
    let mut engine = Engine::new(1024);
    let step = engine.on_read(b"\r\n\r\nGET /b HTTP/1.1\r\nContent-Length: 1\r\n\r\nx");
    match step.event {
        Some(Event::RequestStart { path, rest, .. }) => {
            assert_eq!(path, "/b");
            assert_eq!(rest, b"x".to_vec());
        }
        other => panic!("expected a request start, got {:?}", other),
    }
}
